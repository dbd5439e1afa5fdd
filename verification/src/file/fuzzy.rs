//! `@` file-mention completion for the chat input.
//!
//! A mention is triggered by `@` at the start of the text or after
//! whitespace; `@"...` opens a quoted mention whose path may hold spaces.
//! Candidates are scored on a ladder (exact 100, prefix 80, substring 50,
//! path substring 30, subsequence 10, directories +10) and sorted by score,
//! then path depth, then collation order.

use vstd::prelude::*;
use crate::text::{
    after_last, after_last_exec, chars_of, find_char, find_char_exec, find_sub,
    find_sub_exec, has_prefix, chars_eq, is_ws, is_ws_exec, lemma_find_char_from, lemma_rfind_char, lowercase,
    rfind_char_exec, starts_with, string_of, sub_vec, to_lowercase,
};
use crate::file::collate::{
    law_locale_order_antisymmetric, law_locale_order_equal_iff_same, law_locale_order_transitive,
    locale_order, locale_order_exec,
};
pub use crate::file::collate::locale_compare_default;

verus! {

broadcast use vstd::string::group_string_axioms;

/// A completion query found before the cursor.
#[derive(Debug, Clone, PartialEq, Eq)]
pub struct AtQueryMatch {
    /// Index of the `@`, in UTF-16 code units.
    pub start: usize,
    /// Text typed after `@` (without the opening quote); may be empty.
    pub query: String,
    /// Whether the `@"...` quoted form is used.
    pub quoted: bool,
}

/// An entry of the file index: a path relative to the session directory,
/// `/`-separated, without a trailing slash.
#[derive(Debug, Clone, PartialEq, Eq)]
pub struct FileIndexEntry {
    pub path: String,
    pub is_dir: bool,
}

/// Text that replaces an `@` token, and where the caret goes afterwards.
#[derive(Debug, Clone, PartialEq, Eq)]
pub struct AtInsertion {
    pub text: String,
    /// Caret position relative to the start of `text`, in UTF-16 code units.
    pub cursor_offset: usize,
}

/// Default number of completion results.
pub const AT_RESULT_LIMIT: usize = 20;

impl View for FileIndexEntry {
    type V = (Seq<char>, bool);

    open spec fn view(&self) -> (Seq<char>, bool) {
        (self.path@, self.is_dir)
    }
}

pub open spec fn entries_view(v: Seq<FileIndexEntry>) -> Seq<(Seq<char>, bool)> {
    v.map_values(|e: FileIndexEntry| e@)
}

// ---------------------------------------------------------------------------
// `@` query extraction
// ---------------------------------------------------------------------------

/// Length of a character sequence in UTF-16 code units.
pub open spec fn utf16_len(s: Seq<char>) -> int
    decreases s.len(),
{
    if s.len() == 0 {
        0
    } else {
        utf16_len(s.drop_last()) + if (s.last() as u32) >= 0x10000 { 2int } else { 1int }
    }
}

proof fn lemma_utf16_len_take(s: Seq<char>, k: int)
    requires
        0 <= k <= s.len(),
    ensures
        0 <= utf16_len(s.take(k)) <= utf16_len(s),
    decreases s.len() - k,
{
    if k < s.len() {
        lemma_utf16_len_take(s, k + 1);
        assert(s.take(k + 1).drop_last() =~= s.take(k));
    } else {
        assert(s.take(k) =~= s);
    }
    lemma_utf16_nonneg(s.take(k));
}

proof fn lemma_utf16_nonneg(s: Seq<char>)
    ensures
        utf16_len(s) >= 0,
    decreases s.len(),
{
    if s.len() > 0 {
        lemma_utf16_nonneg(s.drop_last());
    }
}

proof fn lemma_utf16_first(s: Seq<char>)
    requires
        s.len() > 0,
    ensures
        utf16_len(s) == (if (s[0] as u32) >= 0x10000 {
            2int
        } else {
            1int
        }) + utf16_len(s.drop_first()),
    decreases s.len(),
{
    if s.len() > 1 {
        lemma_utf16_first(s.drop_last());
        assert(s.drop_last().drop_first() =~= s.drop_first().drop_last());
        assert(s.drop_last()[0] == s[0]);
        assert(s.drop_first().last() == s.last());
        assert(utf16_len(s.drop_first()) == utf16_len(s.drop_first().drop_last()) + if (
        s.drop_first().last() as u32) >= 0x10000 {
            2int
        } else {
            1int
        });
    } else {
        assert(s.drop_first().len() == 0);
        assert(s.drop_last().len() == 0);
        assert(s.last() == s[0]);
        assert(utf16_len(s.drop_last()) == 0);
        assert(utf16_len(s.drop_first()) == 0);
    }
}

/// No text is longer in UTF-16 code units than in UTF-8 bytes.
proof fn lemma_utf16_le_utf8(s: Seq<char>)
    ensures
        utf16_len(s) <= vstd::utf8::encode_utf8(s).len(),
    decreases s.len(),
{
    if s.len() > 0 {
        lemma_utf16_first(s);
        lemma_utf16_le_utf8(s.drop_first());
        lemma_char_width(s[0]);
    }
}

/// Length of `s[..k]` in UTF-16 code units.
fn utf16_len_prefix(s: &Vec<char>, k: usize) -> (n: usize)
    requires
        k <= s.len(),
        utf16_len(s@) <= usize::MAX,
    ensures
        n == utf16_len(s@.take(k as int)),
{
    let mut n: usize = 0;
    let mut i: usize = 0;
    assert(s@.take(0) =~= Seq::<char>::empty());
    while i < k
        invariant
            i <= k <= s.len(),
            utf16_len(s@) <= usize::MAX,
            n == utf16_len(s@.take(i as int)),
        decreases k - i,
    {
        assert(s@.take(i + 1).drop_last() =~= s@.take(i as int));
        assert(utf16_len(s@.take(i + 1)) == utf16_len(s@.take(i as int)) + if (s@[i as int] as u32)
            >= 0x10000 {
            2int
        } else {
            1int
        });
        proof {
            lemma_utf16_len_take(s@, i + 1);
        }
        if (s[i] as u32) >= 0x10000 {
            n = n + 2;
        } else {
            n = n + 1;
        }
        i += 1;
    }
    n
}

/// Length of a string in UTF-16 code units (JavaScript's `length`).
pub fn utf16_len_of(s: &str) -> (n: usize)
    requires
        utf16_len(s@) <= usize::MAX,
    ensures
        n == utf16_len(s@),
{
    let v = chars_of(s);
    assert(v@.take(v@.len() as int) =~= v@);
    utf16_len_prefix(&v, v.len())
}

/// `@` at index `k` opens a quoted mention that runs to the end of `t`:
/// the text matches `(?:^|\s)@"([^"\n]*)$` with the `@` at `k`.
pub open spec fn quoted_at(t: Seq<char>, k: int) -> bool {
    &&& 0 <= k
    &&& k + 1 < t.len()
    &&& t[k] == '@'
    &&& t[k + 1] == '"'
    &&& (k == 0 || is_ws(t[k - 1]))
    &&& forall|j: int| k + 2 <= j < t.len() ==> t[j] != '"' && t[j] != '\n'
}

/// `@` at index `k` opens a plain mention that runs to the end of `t`:
/// the text matches `(?:^|\s)@([^\s"]*)$` with the `@` at `k`.
pub open spec fn plain_at(t: Seq<char>, k: int) -> bool {
    &&& 0 <= k < t.len()
    &&& t[k] == '@'
    &&& (k == 0 || is_ws(t[k - 1]))
    &&& forall|j: int| k + 1 <= j < t.len() ==> !is_ws(t[j]) && t[j] != '"'
}

/// The query found before the cursor, as (start in UTF-16 units, query,
/// quoted); the quoted form is tried first.
pub open spec fn at_query(t: Seq<char>) -> Option<(int, Seq<char>, bool)> {
    if exists|k: int| quoted_at(t, k) {
        let k = choose|k: int| quoted_at(t, k);
        Some((utf16_len(t.take(k)), t.skip(k + 2), true))
    } else if exists|k: int| plain_at(t, k) {
        let k = choose|k: int| plain_at(t, k);
        Some((utf16_len(t.take(k)), t.skip(k + 1), false))
    } else {
        None
    }
}

proof fn lemma_quoted_at_unique(t: Seq<char>, k1: int, k2: int)
    requires
        quoted_at(t, k1),
        quoted_at(t, k2),
    ensures
        k1 == k2,
{
    if k1 < k2 {
        assert(t[k2 + 1] == '"');
    } else if k2 < k1 {
        assert(t[k1 + 1] == '"');
    }
}

proof fn lemma_plain_at_unique(t: Seq<char>, k1: int, k2: int)
    requires
        plain_at(t, k1),
        plain_at(t, k2),
    ensures
        k1 == k2,
{
    if k1 < k2 {
        assert(is_ws(t[k2 - 1]));
    } else if k2 < k1 {
        assert(is_ws(t[k1 - 1]));
    }
}

/// Index of the `@` of a quoted mention running to the end of `t`.
fn find_quoted_at(t: &Vec<char>) -> (r: Option<usize>)
    ensures
        match r {
            Some(k) => quoted_at(t@, k as int),
            None => forall|k: int| !quoted_at(t@, k),
        },
{
    proof {
        lemma_rfind_char(t@, '"');
    }
    let q = match rfind_char_exec(t, '"') {
        Some(q) => q,
        None => {
            assert forall|k: int| !quoted_at(t@, k) by {
                if quoted_at(t@, k) {
                    assert(t@[k + 1] == '"');
                }
            }
            return None;
        },
    };
    assert(q < t.len());
    let ok_at = q >= 1 && t[q - 1] == '@' && (q == 1 || is_ws_exec(t[q - 2]));
    let mut no_newline = true;
    let mut j: usize = q + 1;
    while j < t.len()
        invariant
            q < t.len(),
            q + 1 <= j <= t.len(),
            no_newline == forall|i: int| q + 1 <= i < j ==> t@[i] != '\n',
        decreases t.len() - j,
    {
        if t[j] == '\n' {
            no_newline = false;
        }
        j += 1;
    }
    if ok_at && no_newline {
        Some(q - 1)
    } else {
        assert forall|k: int| !quoted_at(t@, k) by {
            if quoted_at(t@, k) {
                assert(t@[k + 1] == '"');
                assert(k + 1 == q) by {
                    if k + 1 < q {
                        assert(t@[q as int] == '"');
                    }
                }
            }
        }
        None
    }
}

/// Index of the `@` of a plain mention running to the end of `t`.
fn find_plain_at(t: &Vec<char>) -> (r: Option<usize>)
    ensures
        match r {
            Some(k) => plain_at(t@, k as int),
            None => forall|k: int| !plain_at(t@, k),
        },
{
    let mut p: usize = t.len();
    while p > 0 && !is_ws_exec(t[p - 1]) && t[p - 1] != '"'
        invariant
            p <= t.len(),
            forall|j: int| p <= j < t.len() ==> !is_ws(t@[j]) && t@[j] != '"',
        decreases p,
    {
        p -= 1;
    }
    if p < t.len() && t[p] == '@' && (p == 0 || is_ws_exec(t[p - 1])) {
        Some(p)
    } else {
        assert forall|k: int| !plain_at(t@, k) by {
            if plain_at(t@, k) {
                if k > p {
                    assert(!is_ws(t@[k - 1]));
                } else if k + 1 < p {
                    assert(!is_ws(t@[p - 1]) && t@[p - 1] != '"');
                } else if k + 1 == p {
                    assert(t@[k] == '@');
                }
            }
        }
        None
    }
}

/// Finds the `@` completion query that ends at the cursor.
///
/// `@` must stand at the start of the text or after whitespace (so e-mail
/// addresses do not trigger).  The quoted form `@"my dir/fi` is tried first;
/// `start` is the index of the `@` in UTF-16 code units.
pub fn extract_at_query(text_before_cursor: &str) -> (r: Option<AtQueryMatch>)
    requires
        utf16_len(text_before_cursor@) <= usize::MAX,
    ensures
        match at_query(text_before_cursor@) {
            Some((start, query, quoted)) => r is Some && r->0.start == start && r->0.query@
                == query && r->0.quoted == quoted,
            None => r is None,
        },
{
    let t = chars_of(text_before_cursor);
    if let Some(k) = find_quoted_at(&t) {
        proof {
            lemma_utf16_len_take(t@, k as int);
            assert forall|k2: int| quoted_at(t@, k2) implies k2 == k by {
                lemma_quoted_at_unique(t@, k as int, k2);
            }
        }
        let q = sub_vec(&t, k + 2, t.len());
        return Some(
            AtQueryMatch {
                start: utf16_len_prefix(&t, k),
                query: string_of(q.as_slice()),
                quoted: true,
            },
        );
    }
    if let Some(k) = find_plain_at(&t) {
        proof {
            lemma_utf16_len_take(t@, k as int);
            assert forall|k2: int| plain_at(t@, k2) implies k2 == k by {
                lemma_plain_at_unique(t@, k as int, k2);
            }
        }
        let q = sub_vec(&t, k + 1, t.len());
        return Some(
            AtQueryMatch {
                start: utf16_len_prefix(&t, k),
                query: string_of(q.as_slice()),
                quoted: false,
            },
        );
    }
    None
}


// ---------------------------------------------------------------------------
// Scoring
// ---------------------------------------------------------------------------

/// Number of `c` in `s`.
pub open spec fn count_char(s: Seq<char>, c: char) -> int
    decreases s.len(),
{
    if s.len() == 0 {
        0
    } else {
        count_char(s.drop_last(), c) + if s.last() == c { 1int } else { 0int }
    }
}

/// Depth of a path: the number of `/` in it.
pub open spec fn path_depth(p: Seq<char>) -> int {
    count_char(p, '/')
}

/// `p` occurs in `s`.
pub open spec fn contains(s: Seq<char>, p: Seq<char>) -> bool {
    find_sub(s, p) is Some
}

/// How many characters of `needle` a left-to-right scan of `hay` matches,
/// taking each match as early as possible.
pub open spec fn greedy_count(needle: Seq<char>, hay: Seq<char>) -> int
    decreases hay.len(),
{
    if hay.len() == 0 {
        0
    } else {
        let g = greedy_count(needle, hay.drop_last());
        if 0 <= g < needle.len() && hay.last() == needle[g] {
            g + 1
        } else {
            g
        }
    }
}

/// Result of the subsequence test: an empty needle always matches; else the
/// number of matched characters is compared with the needle's length in
/// UTF-8 bytes (so a needle with non-ASCII characters never matches).
pub open spec fn subsequence_result(needle: Seq<char>, hay: Seq<char>) -> bool {
    needle.len() == 0 || greedy_count(needle, hay) == vstd::utf8::encode_utf8(needle).len()
}

/// Inputs on which the subsequence scan fails: a needle with non-ASCII
/// characters, all of whose characters are matched before the last
/// character of `hay`.
pub open spec fn subsequence_fails(needle: Seq<char>, hay: Seq<char>) -> bool {
    &&& needle.len() > 0
    &&& needle.len() < vstd::utf8::encode_utf8(needle).len()
    &&& hay.len() > 0
    &&& greedy_count(needle, hay.drop_last()) == needle.len()
}

proof fn lemma_greedy_bounds(needle: Seq<char>, hay: Seq<char>)
    ensures
        0 <= greedy_count(needle, hay) <= needle.len(),
    decreases hay.len(),
{
    if hay.len() > 0 {
        lemma_greedy_bounds(needle, hay.drop_last());
    }
}

proof fn lemma_greedy_monotone(needle: Seq<char>, hay: Seq<char>, k1: int, k2: int)
    requires
        0 <= k1 <= k2 <= hay.len(),
    ensures
        greedy_count(needle, hay.take(k1)) <= greedy_count(needle, hay.take(k2)),
    decreases k2 - k1,
{
    if k1 < k2 {
        lemma_greedy_monotone(needle, hay, k1, k2 - 1);
        assert(hay.take(k2).drop_last() =~= hay.take(k2 - 1));
    }
}

/// Whether the characters of `needle` occur in order in `haystack`.
fn is_subsequence(needle: &str, haystack: &str) -> (r: bool)
    requires
        !subsequence_fails(needle@, haystack@),
    ensures
        r == subsequence_result(needle@, haystack@),
{
    if needle.is_empty() {
        return true;
    }
    let ascii = needle.is_ascii();
    let nv = chars_of(needle);
    let hv = chars_of(haystack);
    let mut i: usize = 0;
    let mut k: usize = 0;
    assert(hv@.take(0) =~= Seq::<char>::empty());
    while k < hv.len()
        invariant
            k <= hv.len(),
            nv@ == needle@,
            hv@ == haystack@,
            i == greedy_count(nv@, hv@.take(k as int)),
        decreases hv.len() - k,
    {
        proof {
            lemma_greedy_bounds(nv@, hv@.take(k as int));
            assert(hv@.take(k + 1).drop_last() =~= hv@.take(k as int));
        }
        if i < nv.len() && hv[k] == nv[i] {
            i += 1;
        }
        k += 1;
    }
    assert(hv@.take(hv@.len() as int) =~= hv@);
    proof {
        lemma_utf8_len(nv@);
        lemma_greedy_bounds(nv@, hv@);
        if ascii {
            vstd::utf8::is_ascii_chars_encode_utf8(nv@);
        }
    }
    ascii && i == nv.len()
}

proof fn lemma_char_width(c: char)
    ensures
        '\0' <= c,
        c > '\u{7f}' ==> vstd::utf8::encode_scalar(c as u32).len() >= 2,
        vstd::utf8::encode_scalar(c as u32).len() >= 1,
{
}

proof fn lemma_utf8_len(s: Seq<char>)
    ensures
        vstd::utf8::encode_utf8(s).len() >= s.len(),
        !vstd::utf8::is_ascii_chars(s) ==> vstd::utf8::encode_utf8(s).len() > s.len(),
    decreases s.len(),
{
    if s.len() > 0 {
        lemma_utf8_len(s.drop_first());
        assert(vstd::utf8::encode_utf8(s) == vstd::utf8::encode_scalar(s[0] as u32)
            + vstd::utf8::encode_utf8(s.drop_first()));
        lemma_char_width(s[0]);
        if !vstd::utf8::is_ascii_chars(s) {
            if '\0' <= s[0] <= '\u{7f}' {
                let i = choose|i: int| 0 <= i < s.len() && !('\0' <= #[trigger] s[i] <= '\u{7f}');
                assert(i != 0);
                assert(s.drop_first()[i - 1] == s[i]);
                assert(!vstd::utf8::is_ascii_chars(s.drop_first()));
            } else {
                assert(s[0] > '\u{7f}');
            }
        }
    }
}

/// Score of a path against a lowercase query, before the directory bonus.
pub open spec fn base_score(lower_path: Seq<char>, lq: Seq<char>) -> int {
    if find_char(lq, '/') is Some {
        if lower_path == lq {
            100
        } else if starts_with(lower_path, lq) {
            80
        } else if contains(lower_path, lq) {
            50
        } else if subsequence_result(lq, lower_path) {
            10
        } else {
            0
        }
    } else {
        let name = after_last(lower_path, '/');
        if name == lq {
            100
        } else if starts_with(name, lq) {
            80
        } else if contains(name, lq) {
            50
        } else if contains(lower_path, lq) {
            30
        } else if subsequence_result(lq, lower_path) {
            10
        } else {
            0
        }
    }
}

/// Score of an index entry against a lowercase query: the ladder of
/// [`base_score`] on the lowercased path, plus 10 for a matching directory.
pub open spec fn entry_score(path: Seq<char>, is_dir: bool, lq: Seq<char>) -> int {
    let b = base_score(lowercase(path), lq);
    if is_dir && b > 0 {
        b + 10
    } else {
        b
    }
}

/// Scoring an entry reaches the subsequence test on an input where it fails.
pub open spec fn score_fails(path: Seq<char>, lq: Seq<char>) -> bool {
    let lp = lowercase(path);
    &&& subsequence_fails(lq, lp)
    &&& !contains(lp, lq)
    &&& if find_char(lq, '/') is Some {
        lp != lq && !starts_with(lp, lq)
    } else {
        let name = after_last(lp, '/');
        name != lq && !starts_with(name, lq) && !contains(name, lq)
    }
}

/// Occurrence test on character vectors.
fn contains_exec(s: &Vec<char>, p: &Vec<char>) -> (b: bool)
    ensures
        b == contains(s@, p@),
{
    find_sub_exec(s, p, 0).is_some()
}

/// Scores an index entry against a lowercase query (0 means no match).
fn score_entry(entry: &FileIndexEntry, lower_query: &str) -> (score: i32)
    requires
        !score_fails(entry.path@, lower_query@),
    ensures
        score == entry_score(entry.path@, entry.is_dir, lower_query@),
{
    let lower_path_s = to_lowercase(entry.path.as_str());
    let lower_path = chars_of(lower_path_s.as_str());
    let lq = chars_of(lower_query);
    proof {
        lemma_find_char_from(lq@, '/', 0);
    }
    let mut score: i32 = 0;
    if find_char_exec(&lq, '/', 0).is_some() {
        if chars_eq(&lower_path, &lq) {
            score = 100;
        } else if has_prefix(&lower_path, &lq) {
            score = 80;
        } else if contains_exec(&lower_path, &lq) {
            score = 50;
        } else if is_subsequence(lower_query, lower_path_s.as_str()) {
            score = 10;
        }
    } else {
        let name = after_last_exec(&lower_path, '/');
        if chars_eq(&name, &lq) {
            score = 100;
        } else if has_prefix(&name, &lq) {
            score = 80;
        } else if contains_exec(&name, &lq) {
            score = 50;
        } else if contains_exec(&lower_path, &lq) {
            score = 30;
        } else if is_subsequence(lower_query, lower_path_s.as_str()) {
            score = 10;
        }
    }
    if entry.is_dir && score > 0 {
        score += 10;
    }
    score
}


// ---------------------------------------------------------------------------
// Ranking
// ---------------------------------------------------------------------------

/// A scored candidate: (score, path, is directory).
pub type Ranked = (int, Seq<char>, bool);

/// Order of two candidates: higher score first, then shallower path, then
/// collation order of the paths.  -1, 0 or 1.
pub open spec fn rank_order(a: Ranked, b: Ranked) -> int {
    if a.0 != b.0 {
        if a.0 > b.0 {
            -1
        } else {
            1
        }
    } else if path_depth(a.1) != path_depth(b.1) {
        if path_depth(a.1) < path_depth(b.1) {
            -1
        } else {
            1
        }
    } else {
        locale_order(a.1, b.1)
    }
}

/// Inserts `x` into `s` just after the last element that does not rank
/// after it.
pub open spec fn insert_ranked(s: Seq<Ranked>, x: Ranked) -> Seq<Ranked>
    decreases s.len(),
{
    if s.len() == 0 {
        seq![x]
    } else if rank_order(s.last(), x) > 0 {
        insert_ranked(s.drop_last(), x).push(s.last())
    } else {
        s.push(x)
    }
}

/// Stable sort of candidates by [`rank_order`] (insertion in input order).
pub open spec fn sort_ranked(s: Seq<Ranked>) -> Seq<Ranked>
    decreases s.len(),
{
    if s.len() == 0 {
        s
    } else {
        insert_ranked(sort_ranked(s.drop_last()), s.last())
    }
}

proof fn lemma_rank_antisymmetric(a: Ranked, b: Ranked)
    ensures
        rank_order(a, b) == -rank_order(b, a),
        -1 <= rank_order(a, b) <= 1,
        rank_order(a, b) == 0 ==> a.0 == b.0 && a.1 == b.1,
{
    law_locale_order_antisymmetric(a.1, b.1);
    law_locale_order_equal_iff_same(a.1, b.1);
}

proof fn lemma_rank_transitive(a: Ranked, b: Ranked, c: Ranked)
    requires
        rank_order(a, b) <= 0,
        rank_order(b, c) <= 0,
    ensures
        rank_order(a, c) <= 0,
{
    lemma_rank_antisymmetric(a, b);
    lemma_rank_antisymmetric(b, c);
    lemma_rank_antisymmetric(a, c);
    if rank_order(a, b) < 0 && rank_order(b, c) < 0 && a.0 == b.0 && b.0 == c.0 && path_depth(a.1)
        == path_depth(b.1) && path_depth(b.1) == path_depth(c.1) {
        law_locale_order_transitive(a.1, b.1, c.1);
    }
}

/// Candidates in rank order (each ranks no later than the next).
pub open spec fn ranks_sorted(s: Seq<Ranked>) -> bool {
    forall|i: int, j: int| 0 <= i < j < s.len() ==> rank_order(#[trigger] s[i], #[trigger] s[j]) <= 0
}

proof fn lemma_insert_ranked(s: Seq<Ranked>, x: Ranked)
    requires
        ranks_sorted(s),
    ensures
        ranks_sorted(insert_ranked(s, x)),
        insert_ranked(s, x).to_multiset() == s.to_multiset().insert(x),
    decreases s.len(),
{
    broadcast use vstd::seq_lib::group_to_multiset_ensures;

    if s.len() == 0 {
        assert(seq![x] =~= Seq::<Ranked>::empty().push(x));
    } else {
        let p = s.drop_last();
        let last = s.last();
        assert(s =~= p.push(last));
        assert(ranks_sorted(p)) by {
            assert forall|i: int, j: int| 0 <= i < j < p.len() implies rank_order(
                #[trigger] p[i],
                #[trigger] p[j],
            ) <= 0 by {
                assert(p[i] == s[i] && p[j] == s[j]);
            }
        }
        if rank_order(last, x) > 0 {
            lemma_insert_ranked(p, x);
            let q = insert_ranked(p, x);
            assert forall|k: int| 0 <= k < q.len() implies rank_order(#[trigger] q[k], last) <= 0 by {
                assert(q.to_multiset().count(q[k]) > 0);
                if q[k] == x {
                    lemma_rank_antisymmetric(last, x);
                } else {
                    assert(p.to_multiset().count(q[k]) > 0);
                    assert(p.contains(q[k]));
                    let m = choose|m: int| 0 <= m < p.len() && p[m] == q[k];
                    assert(s[m] == q[k] && s[s.len() - 1] == last);
                }
            }
            let r = q.push(last);
            assert forall|i: int, j: int| 0 <= i < j < r.len() implies rank_order(
                #[trigger] r[i],
                #[trigger] r[j],
            ) <= 0 by {
                if j == q.len() {
                    assert(r[i] == q[i]);
                } else {
                    assert(r[i] == q[i] && r[j] == q[j]);
                }
            }
        } else {
            let r = s.push(x);
            assert forall|i: int, j: int| 0 <= i < j < r.len() implies rank_order(
                #[trigger] r[i],
                #[trigger] r[j],
            ) <= 0 by {
                if j == s.len() {
                    assert(r[i] == s[i]);
                    if i < s.len() - 1 {
                        lemma_rank_transitive(s[i], last, x);
                    }
                } else {
                    assert(r[i] == s[i] && r[j] == s[j]);
                }
            }
        }
    }
}

/// Completion candidates come out in rank order (higher score, then
/// shallower path, then collation order of the paths), and are the
/// candidates given, each as often as given.
pub proof fn law_ranking_sorted(s: Seq<Ranked>)
    ensures
        ranks_sorted(sort_ranked(s)),
        sort_ranked(s).to_multiset() == s.to_multiset(),
    decreases s.len(),
{
    broadcast use vstd::seq_lib::group_to_multiset_ensures;

    if s.len() > 0 {
        law_ranking_sorted(s.drop_last());
        lemma_insert_ranked(sort_ranked(s.drop_last()), s.last());
        assert(s =~= s.drop_last().push(s.last()));
    }
}

struct Candidate {
    score: i32,
    path: Vec<char>,
    is_dir: bool,
}

impl View for Candidate {
    type V = Ranked;

    closed spec fn view(&self) -> Ranked {
        (self.score as int, self.path@, self.is_dir)
    }
}

spec fn candidates_view(v: Seq<Candidate>) -> Seq<Ranked> {
    v.map_values(|c: Candidate| c@)
}

/// Number of `c` in `s`.
fn count_char_exec(s: &Vec<char>, c: char) -> (n: usize)
    ensures
        n == count_char(s@, c),
{
    let mut n: usize = 0;
    let mut i: usize = 0;
    assert(s@.take(0) =~= Seq::<char>::empty());
    while i < s.len()
        invariant
            i <= s.len(),
            n == count_char(s@.take(i as int), c),
            n <= i,
        decreases s.len() - i,
    {
        assert(s@.take(i + 1).drop_last() =~= s@.take(i as int));
        if s[i] == c {
            n += 1;
        }
        i += 1;
    }
    assert(s@.take(s.len() as int) =~= s@);
    n
}

fn rank_order_exec(a: &Candidate, b: &Candidate) -> (r: i8)
    ensures
        r as int == rank_order(a@, b@),
{
    if a.score != b.score {
        if a.score > b.score {
            -1
        } else {
            1
        }
    } else {
        let da = count_char_exec(&a.path, '/');
        let db = count_char_exec(&b.path, '/');
        if da != db {
            if da < db {
                -1
            } else {
                1
            }
        } else {
            locale_order_exec(&a.path, &b.path)
        }
    }
}

fn insert_ranked_exec(v: &mut Vec<Candidate>, x: Candidate)
    ensures
        candidates_view(final(v)@) == insert_ranked(candidates_view(old(v)@), x@),
{
    let ghost xs = candidates_view(v@);
    let mut j: usize = v.len();
    assert(xs.take(j as int) =~= xs && xs.skip(j as int) =~= Seq::<Ranked>::empty());
    while j > 0 && rank_order_exec(&v[j - 1], &x) > 0
        invariant
            j <= v.len(),
            xs == candidates_view(v@),
            insert_ranked(xs, x@) == insert_ranked(xs.take(j as int), x@) + xs.skip(j as int),
        decreases j,
    {
        assert(xs.take(j as int).drop_last() =~= xs.take(j - 1));
        assert(xs.skip(j - 1) =~= seq![xs[j - 1]] + xs.skip(j as int));
        assert(xs.take(j as int).last() == xs[j - 1]);
        assert(insert_ranked(xs.take(j - 1), x@).push(xs[j - 1]) + xs.skip(j as int)
            =~= insert_ranked(xs.take(j - 1), x@) + xs.skip(j - 1));
        j -= 1;
    }
    let ghost xv = x@;
    v.insert(j, x);
    assert(candidates_view(v@) =~= xs.take(j as int).push(xv) + xs.skip(j as int));
}

/// A copy of a candidate.
fn copy_candidate(c: &Candidate) -> (r: Candidate)
    ensures
        r@ == c@,
{
    Candidate { score: c.score, path: sub_vec(&c.path, 0, c.path.len()), is_dir: c.is_dir }
}

/// Stable sort of candidates by [`rank_order`].
fn sort_candidates(v: &Vec<Candidate>) -> (r: Vec<Candidate>)
    ensures
        candidates_view(r@) == sort_ranked(candidates_view(v@)),
{
    let mut r: Vec<Candidate> = Vec::new();
    let mut i: usize = 0;
    assert(candidates_view(v@).take(0) =~= Seq::<Ranked>::empty());
    while i < v.len()
        invariant
            i <= v.len(),
            candidates_view(r@) == sort_ranked(candidates_view(v@).take(i as int)),
        decreases v.len() - i,
    {
        assert(candidates_view(v@).take(i + 1).drop_last() =~= candidates_view(v@).take(i as int));
        let c = copy_candidate(&v[i]);
        insert_ranked_exec(&mut r, c);
        i += 1;
    }
    assert(candidates_view(v@).take(v.len() as int) =~= candidates_view(v@));
    r
}

/// Index entries of the first `limit` candidates.
fn take_entries(v: &Vec<Candidate>, limit: usize) -> (r: Vec<FileIndexEntry>)
    ensures
        entries_view(r@) == candidates_view(v@).take(min_len(limit as int, v.len() as int)).map_values(
            |c: Ranked| (c.1, c.2),
        ),
{
    let n = if limit < v.len() {
        limit
    } else {
        v.len()
    };
    let mut r: Vec<FileIndexEntry> = Vec::new();
    let mut i: usize = 0;
    while i < n
        invariant
            n <= v.len(),
            n == min_len(limit as int, v.len() as int),
            i <= n,
            entries_view(r@) =~= candidates_view(v@).take(i as int).map_values(
                |c: Ranked| (c.1, c.2),
            ),
        decreases n - i,
    {
        let e = FileIndexEntry { path: string_of(v[i].path.as_slice()), is_dir: v[i].is_dir };
        let ghost old_r = r@;
        let ghost ev = e@;
        assert(ev == (v@[i as int]@.1, v@[i as int]@.2));
        r.push(e);
        assert(entries_view(r@) =~= entries_view(old_r).push(ev));
        assert(candidates_view(v@).take(i + 1) =~= candidates_view(v@).take(i as int).push(
            v@[i as int]@,
        ));
        assert(candidates_view(v@).take(i + 1).map_values(|c: Ranked| (c.1, c.2))
            =~= candidates_view(v@).take(i as int).map_values(|c: Ranked| (c.1, c.2)).push(ev));
        i += 1;
    }
    r
}

/// The smaller of a limit and a length.
pub open spec fn min_len(limit: int, len: int) -> int {
    if limit < len {
        limit
    } else {
        len
    }
}

// ---------------------------------------------------------------------------
// Building and filtering the index
// ---------------------------------------------------------------------------

/// The views of a slice of strings.
pub open spec fn strings_view(v: Seq<String>) -> Seq<Seq<char>> {
    v.map_values(|s: String| s@)
}

/// `dirs` after adding, in order, the directory prefixes of `f` that end
/// before its first `k` characters and are not present yet.
pub open spec fn add_dirs_upto(dirs: Seq<Seq<char>>, f: Seq<char>, k: int) -> Seq<Seq<char>>
    decreases k,
{
    if k <= 0 {
        dirs
    } else {
        let d = add_dirs_upto(dirs, f, k - 1);
        if f[k - 1] == '/' && !d.contains(f.take(k - 1)) {
            d.push(f.take(k - 1))
        } else {
            d
        }
    }
}

/// Directories implied by a list of files: each prefix of a file path that
/// ends before a `/`, once, in order of first appearance.
pub open spec fn dirs_of(files: Seq<Seq<char>>) -> Seq<Seq<char>>
    decreases files.len(),
{
    if files.len() == 0 {
        seq![]
    } else {
        let f = files.last();
        add_dirs_upto(dirs_of(files.drop_last()), f, f.len() as int)
    }
}

/// File candidates of a list of files: the non-empty paths, in order.
pub open spec fn file_candidates(files: Seq<Seq<char>>) -> Seq<Ranked>
    decreases files.len(),
{
    if files.len() == 0 {
        seq![]
    } else {
        let rest = file_candidates(files.drop_last());
        if files.last().len() > 0 {
            rest.push((0int, files.last(), false))
        } else {
            rest
        }
    }
}

/// The index built from a list of files: derived directories, then the
/// non-empty files, stably sorted by depth and collation order.
pub open spec fn index_of(files: Seq<Seq<char>>) -> Seq<(Seq<char>, bool)> {
    let unsorted = dirs_of(files).map_values(|d: Seq<char>| (0int, d, true)) + file_candidates(
        files,
    );
    sort_ranked(unsorted).map_values(|c: Ranked| (c.1, c.2))
}

spec fn dirs_view(v: Seq<Vec<char>>) -> Seq<Seq<char>> {
    v.map_values(|d: Vec<char>| d@)
}

fn contains_dir(dirs: &Vec<Vec<char>>, p: &Vec<char>) -> (b: bool)
    ensures
        b == dirs_view(dirs@).contains(p@),
{
    let mut i: usize = 0;
    while i < dirs.len()
        invariant
            i <= dirs.len(),
            forall|j: int| 0 <= j < i ==> dirs@[j]@ != p@,
        decreases dirs.len() - i,
    {
        if chars_eq(&dirs[i], p) {
            assert(dirs_view(dirs@)[i as int] == p@);
            return true;
        }
        i += 1;
    }
    assert forall|j: int| 0 <= j < dirs_view(dirs@).len() implies dirs_view(dirs@)[j] != p@ by {
        assert(dirs_view(dirs@)[j] == dirs@[j]@);
    }
    false
}

/// Derives the completion index from a list of files.
///
/// The file index lists files only; every directory prefix of a file is
/// added as a directory entry (once, in order of first appearance), empty
/// file paths are skipped, and the entries are sorted shallowest first, then
/// by collation order.
pub fn build_entries_from_files(files: &[String]) -> (r: Vec<FileIndexEntry>)
    ensures
        entries_view(r@) == index_of(strings_view(files@)),
{
    let ghost fs = strings_view(files@);
    let mut dirs: Vec<Vec<char>> = Vec::new();
    let mut fi: usize = 0;
    assert(fs.take(0) =~= Seq::<Seq<char>>::empty());
    assert(dirs_view(dirs@) =~= Seq::<Seq<char>>::empty());
    while fi < files.len()
        invariant
            fi <= files.len(),
            fs == strings_view(files@),
            dirs_view(dirs@) == dirs_of(fs.take(fi as int)),
        decreases files.len() - fi,
    {
        let f = chars_of(files[fi].as_str());
        let ghost d0 = dirs_view(dirs@);
        let mut k: usize = 0;
        while k < f.len()
            invariant
                k <= f.len(),
                dirs_view(dirs@) == add_dirs_upto(d0, f@, k as int),
            decreases f.len() - k,
        {
            if f[k] == '/' {
                let p = sub_vec(&f, 0, k);
                assert(p@ =~= f@.take(k as int));
                if !contains_dir(&dirs, &p) {
                    let ghost before = dirs@;
                    dirs.push(p);
                    assert(dirs_view(dirs@) =~= dirs_view(before).push(f@.take(k as int)));
                }
            }
            k += 1;
        }
        assert(fs.take(fi + 1).drop_last() =~= fs.take(fi as int));
        assert(fs.take(fi + 1).last() == f@);
        fi += 1;
    }
    assert(fs.take(files.len() as int) =~= fs);
    let ghost dv = dirs_view(dirs@).map_values(|d: Seq<char>| (0int, d, true));
    let mut cands: Vec<Candidate> = Vec::new();
    let mut i: usize = 0;
    while i < dirs.len()
        invariant
            i <= dirs.len(),
            dv == dirs_view(dirs@).map_values(|d: Seq<char>| (0int, d, true)),
            candidates_view(cands@) =~= dv.take(i as int),
        decreases dirs.len() - i,
    {
        let c = Candidate { score: 0, path: sub_vec(&dirs[i], 0, dirs[i].len()), is_dir: true };
        assert(c.path@ =~= dirs@[i as int]@);
        assert(dirs_view(dirs@)[i as int] == dirs@[i as int]@);
        assert(c@ == dv[i as int]);
        let ghost before = cands@;
        cands.push(c);
        assert(candidates_view(cands@) =~= candidates_view(before).push(dv[i as int]));
        assert(dv.take(i + 1) =~= dv.take(i as int).push(dv[i as int]));
        i += 1;
    }
    assert(dv.take(dirs.len() as int) =~= dv);
    let mut j: usize = 0;
    assert(fs.take(0) =~= Seq::<Seq<char>>::empty());
    while j < files.len()
        invariant
            j <= files.len(),
            fs == strings_view(files@),
            candidates_view(cands@) =~= dv + file_candidates(fs.take(j as int)),
        decreases files.len() - j,
    {
        assert(fs.take(j + 1).drop_last() =~= fs.take(j as int));
        if !files[j].as_str().is_empty() {
            let c = Candidate { score: 0, path: chars_of(files[j].as_str()), is_dir: false };
            let ghost before = cands@;
            cands.push(c);
            assert(candidates_view(cands@) =~= candidates_view(before).push(c@));
        }
        j += 1;
    }
    assert(fs.take(files.len() as int) =~= fs);
    let sorted = sort_candidates(&cands);
    take_entries(&sorted, sorted.len())
}

/// Candidates of the entries that score above zero, in input order.
pub open spec fn scored(es: Seq<(Seq<char>, bool)>, lq: Seq<char>) -> Seq<Ranked>
    decreases es.len(),
{
    if es.len() == 0 {
        seq![]
    } else {
        let rest = scored(es.drop_last(), lq);
        let e = es.last();
        let sc = entry_score(e.0, e.1, lq);
        if sc > 0 {
            rest.push((sc, e.0, e.1))
        } else {
            rest
        }
    }
}

/// The entries that completion offers for `query`, at most `limit` of them:
/// with an empty (lowercased) query the first entries as they are; else
/// the entries with a positive score, best first.
pub open spec fn filtered(es: Seq<(Seq<char>, bool)>, query: Seq<char>, limit: int) -> Seq<
    (Seq<char>, bool),
> {
    let lq = lowercase(query);
    if lq.len() == 0 {
        es.take(min_len(limit, es.len() as int))
    } else {
        let s = sort_ranked(scored(es, lq));
        s.take(min_len(limit, s.len() as int)).map_values(|c: Ranked| (c.1, c.2))
    }
}

/// Scoring fails on no entry for this query.
pub open spec fn filter_succeeds(es: Seq<(Seq<char>, bool)>, query: Seq<char>) -> bool {
    lowercase(query).len() > 0 ==> forall|i: int|
        0 <= i < es.len() ==> !score_fails(#[trigger] es[i].0, lowercase(query))
}

/// Ranks the index entries against `query` and keeps at most `limit`.
pub fn filter_file_entries(entries: &[FileIndexEntry], query: &str, limit: usize) -> (r: Vec<
    FileIndexEntry,
>)
    requires
        filter_succeeds(entries_view(entries@), query@),
    ensures
        entries_view(r@) == filtered(entries_view(entries@), query@, limit as int),
{
    let ghost es = entries_view(entries@);
    let lower_query = to_lowercase(query);
    if lower_query.as_str().is_empty() {
        let n = if limit < entries.len() {
            limit
        } else {
            entries.len()
        };
        let mut r: Vec<FileIndexEntry> = Vec::new();
        let mut i: usize = 0;
        while i < n
            invariant
                n <= entries.len(),
                i <= n,
                es == entries_view(entries@),
                entries_view(r@) =~= es.take(i as int),
            decreases n - i,
        {
            let e = FileIndexEntry { path: entries[i].path.clone(), is_dir: entries[i].is_dir };
            let ghost before = r@;
            r.push(e);
            assert(entries_view(r@) =~= entries_view(before).push(es[i as int]));
            i += 1;
        }
        return r;
    }
    let mut cands: Vec<Candidate> = Vec::new();
    let mut i: usize = 0;
    assert(es.take(0) =~= Seq::<(Seq<char>, bool)>::empty());
    while i < entries.len()
        invariant
            i <= entries.len(),
            es == entries_view(entries@),
            lower_query@ == lowercase(query@),
            lower_query@.len() > 0,
            filter_succeeds(es, query@),
            candidates_view(cands@) =~= scored(es.take(i as int), lower_query@),
        decreases entries.len() - i,
    {
        assert(es[i as int].0 == entries@[i as int].path@);
        let score = score_entry(&entries[i], lower_query.as_str());
        assert(es.take(i + 1).drop_last() =~= es.take(i as int));
        if score > 0 {
            let c = Candidate {
                score: score,
                path: chars_of(entries[i].path.as_str()),
                is_dir: entries[i].is_dir,
            };
            let ghost before = cands@;
            cands.push(c);
            assert(candidates_view(cands@) =~= candidates_view(before).push(c@));
        }
        i += 1;
    }
    assert(es.take(entries.len() as int) =~= es);
    let sorted = sort_candidates(&cands);
    take_entries(&sorted, limit)
}

// ---------------------------------------------------------------------------
// Insertion and mention texts
// ---------------------------------------------------------------------------

/// The path as mentioned: directories get a trailing `/`.
pub open spec fn mention_path(path: Seq<char>, is_dir: bool) -> Seq<char> {
    if is_dir {
        path.push('/')
    } else {
        path
    }
}

/// `p` holds a space (and so must be quoted in a mention).
pub open spec fn has_space(p: Seq<char>) -> bool {
    find_char(p, ' ') is Some
}

/// `@p`, or `@"p"` when quoted.
pub open spec fn mention_token(p: Seq<char>, quoted: bool) -> Seq<char> {
    if quoted {
        seq!['@', '"'] + p + seq!['"']
    } else {
        seq!['@'] + p
    }
}

/// Text inserted for a chosen completion entry: a directory keeps the menu
/// open (`@dir/`, no trailing space); a file closes the token with a space.
pub open spec fn insert_text(path: Seq<char>, is_dir: bool, force_quotes: bool) -> Seq<char> {
    let p = mention_path(path, is_dir);
    let q = force_quotes || has_space(p);
    if is_dir {
        mention_token(p, q)
    } else {
        mention_token(p, q).push(' ')
    }
}

/// Caret position after inserting [`insert_text`], in UTF-16 code units
/// (the browser's string offsets): after the whole text, except for a
/// quoted directory, where it stays before the closing quote.
pub open spec fn insert_cursor(path: Seq<char>, is_dir: bool, force_quotes: bool) -> int {
    let p = mention_path(path, is_dir);
    let q = force_quotes || has_space(p);
    let n = utf16_len(insert_text(path, is_dir, force_quotes));
    if is_dir && q {
        n - 1
    } else {
        n
    }
}

/// A closed mention of an entry (`@path ` or `@"path" `).
pub open spec fn mention_text(path: Seq<char>, is_dir: bool) -> Seq<char> {
    let p = mention_path(path, is_dir);
    mention_token(p, has_space(p)).push(' ')
}

/// The closed mention of a line (`:n`) or line range (`:a-b`) of a file;
/// the range is ordered and its ends are raised to at least 1.
pub open spec fn line_mention_text(path: Seq<char>, start_line: nat, end_line: nat) -> Seq<char> {
    let lo = if start_line < end_line { start_line } else { end_line };
    let hi = if start_line < end_line { end_line } else { start_line };
    let first: nat = if lo < 1 { 1 } else { lo };
    let last: nat = if hi < 1 { 1 } else { hi };
    let suffix = if first == last {
        seq![':'] + crate::text::decimal(first)
    } else {
        seq![':'] + crate::text::decimal(first) + seq!['-'] + crate::text::decimal(last)
    };
    (mention_token(path, has_space(path)) + suffix).push(' ')
}

/// Closed mentions of several files, one after another.
pub open spec fn mentions_text(paths: Seq<Seq<char>>) -> Seq<char>
    decreases paths.len(),
{
    if paths.len() == 0 {
        seq![]
    } else {
        mentions_text(paths.drop_last()) + mention_text(paths.last(), false)
    }
}

fn mention_path_exec(path: &str, is_dir: bool) -> (r: Vec<char>)
    ensures
        r@ == mention_path(path@, is_dir),
{
    let mut p = chars_of(path);
    if is_dir {
        p.push('/');
    }
    p
}

fn has_space_exec(p: &Vec<char>) -> (b: bool)
    ensures
        b == has_space(p@),
{
    proof {
        lemma_find_char_from(p@, ' ', 0);
    }
    find_char_exec(p, ' ', 0).is_some()
}

fn mention_token_exec(p: &Vec<char>, quoted: bool) -> (r: Vec<char>)
    ensures
        r@ == mention_token(p@, quoted),
{
    let mut r: Vec<char> = Vec::new();
    r.push('@');
    if quoted {
        r.push('"');
    }
    crate::text::append_chars(&mut r, p);
    if quoted {
        r.push('"');
        assert(r@ =~= seq!['@', '"'] + p@ + seq!['"']);
    } else {
        assert(r@ =~= seq!['@'] + p@);
    }
    r
}

/// Text and caret position for inserting a chosen completion entry.
///
/// Files close the token (`@path `, quoted when the path holds a space or
/// `force_quotes` is set) with the caret after the trailing space.
/// Directories keep the menu open (`@dir/`); a quoted directory is inserted
/// closed (`@"my dir/"`) with the caret before the closing quote.
pub fn build_at_insert_text(entry_path: &str, is_dir: bool, force_quotes: bool) -> (r: AtInsertion)
    ensures
        r.text@ == insert_text(entry_path@, is_dir, force_quotes),
        r.cursor_offset == insert_cursor(entry_path@, is_dir, force_quotes),
{
    let p = mention_path_exec(entry_path, is_dir);
    let needs_quotes = force_quotes || has_space_exec(&p);
    let mut t = mention_token_exec(&p, needs_quotes);
    if !is_dir {
        t.push(' ');
    }
    let text = string_of(t.as_slice());
    let byte_len = text.as_str().as_bytes().len();
    proof {
        lemma_utf16_le_utf8(t@);
        lemma_utf16_first(t@);
        lemma_utf16_nonneg(t@.drop_first());
    }
    assert(utf16_len(t@) <= byte_len);
    assert(t@.take(t.len() as int) =~= t@);
    let n = utf16_len_prefix(&t, t.len());
    let cursor_offset = if is_dir && needs_quotes {
        n - 1
    } else {
        n
    };
    AtInsertion { text, cursor_offset }
}

/// The closed `@mention` of an entry (the file browser's `@` button).
pub fn build_at_mention_text(entry_path: &str, is_dir: bool) -> (r: String)
    ensures
        r@ == mention_text(entry_path@, is_dir),
{
    let p = mention_path_exec(entry_path, is_dir);
    let q = has_space_exec(&p);
    let mut t = mention_token_exec(&p, q);
    t.push(' ');
    string_of(t.as_slice())
}

/// The closed `@mention` of one line or a range of lines of a file.
pub fn build_file_line_mention_text(entry_path: &str, start_line: usize, end_line: usize) -> (r:
    String)
    ensures
        r@ == line_mention_text(entry_path@, start_line as nat, end_line as nat),
{
    let lo = if start_line < end_line {
        start_line
    } else {
        end_line
    };
    let hi = if start_line < end_line {
        end_line
    } else {
        start_line
    };
    let first = if lo < 1 {
        1
    } else {
        lo
    };
    let last = if hi < 1 {
        1
    } else {
        hi
    };
    let path = chars_of(entry_path);
    let q = has_space_exec(&path);
    let mut t = mention_token_exec(&path, q);
    let ghost token = t@;
    t.push(':');
    let d1 = crate::text::decimal_exec(first);
    crate::text::append_chars(&mut t, &d1);
    if first != last {
        t.push('-');
        let d2 = crate::text::decimal_exec(last);
        crate::text::append_chars(&mut t, &d2);
        assert(t@ =~= token + (seq![':'] + d1@ + seq!['-'] + d2@));
    } else {
        assert(t@ =~= token + (seq![':'] + d1@));
    }
    t.push(' ');
    string_of(t.as_slice())
}

/// Closed `@mention`s of several files, concatenated.
pub fn build_file_at_mentions_text(entry_paths: &[String]) -> (r: String)
    ensures
        r@ == mentions_text(strings_view(entry_paths@)),
{
    let ghost ps = strings_view(entry_paths@);
    let mut t: Vec<char> = Vec::new();
    let mut i: usize = 0;
    assert(ps.take(0) =~= Seq::<Seq<char>>::empty());
    while i < entry_paths.len()
        invariant
            i <= entry_paths.len(),
            ps == strings_view(entry_paths@),
            t@ == mentions_text(ps.take(i as int)),
        decreases entry_paths.len() - i,
    {
        let m = build_at_mention_text(entry_paths[i].as_str(), false);
        let mv = chars_of(m.as_str());
        crate::text::append_chars(&mut t, &mv);
        assert(ps.take(i + 1).drop_last() =~= ps.take(i as int));
        i += 1;
    }
    assert(ps.take(entry_paths.len() as int) =~= ps);
    string_of(t.as_slice())
}

/// Matched-character count of the greedy scan, on character vectors.
fn greedy_count_exec(needle: &Vec<char>, hay: &Vec<char>, upto: usize) -> (n: usize)
    requires
        upto <= hay.len(),
    ensures
        n == greedy_count(needle@, hay@.take(upto as int)),
{
    let mut i: usize = 0;
    let mut k: usize = 0;
    assert(hay@.take(0) =~= Seq::<char>::empty());
    while k < upto
        invariant
            k <= upto <= hay.len(),
            i == greedy_count(needle@, hay@.take(k as int)),
        decreases upto - k,
    {
        proof {
            lemma_greedy_bounds(needle@, hay@.take(k as int));
        }
        assert(hay@.take(k + 1).drop_last() =~= hay@.take(k as int));
        if i < needle.len() && hay[k] == needle[i] {
            i += 1;
        }
        k += 1;
    }
    i
}

/// Whether scoring `path` against the lowercase query `lq` fails.
fn score_fails_exec(path: &str, lq: &str) -> (b: bool)
    ensures
        b == score_fails(path@, lq@),
{
    let lower_path = to_lowercase(path);
    let lp = chars_of(lower_path.as_str());
    let q = chars_of(lq);
    let subsequence_fails = if q.len() > 0 && !lq.is_ascii() && lp.len() > 0 {
        let g = greedy_count_exec(&q, &lp, lp.len() - 1);
        assert(lp@.drop_last() =~= lp@.take(lp.len() - 1));
        proof {
            lemma_utf8_len(q@);
            if lq.is_ascii() {
                vstd::utf8::is_ascii_chars_encode_utf8(q@);
            }
        }
        g == q.len()
    } else {
        proof {
            if lq.is_ascii() {
                vstd::utf8::is_ascii_chars_encode_utf8(q@);
            }
        }
        false
    };
    proof {
        lemma_find_char_from(q@, '/', 0);
        lemma_utf8_len(q@);
    }
    if !subsequence_fails || contains_exec(&lp, &q) {
        return false;
    }
    if find_char_exec(&q, '/', 0).is_some() {
        !chars_eq(&lp, &q) && !has_prefix(&lp, &q)
    } else {
        let name = after_last_exec(&lp, '/');
        !chars_eq(&name, &q) && !has_prefix(&name, &q) && !contains_exec(&name, &q)
    }
}

/// [`filter_file_entries`] on every input: `None` exactly when scoring
/// would fail on some entry (see [`score_fails`]).
pub fn filter_file_entries_checked(entries: &[FileIndexEntry], query: &str, limit: usize) -> (r:
    Option<Vec<FileIndexEntry>>)
    ensures
        r is Some <==> filter_succeeds(entries_view(entries@), query@),
        r matches Some(v) ==> entries_view(v@) == filtered(entries_view(entries@), query@, limit as int),
{
    let ghost es = entries_view(entries@);
    let lower_query = to_lowercase(query);
    if !lower_query.as_str().is_empty() {
        let mut i: usize = 0;
        while i < entries.len()
            invariant
                i <= entries.len(),
                es == entries_view(entries@),
                lower_query@ == lowercase(query@),
                forall|j: int| 0 <= j < i ==> !score_fails(#[trigger] es[j].0, lowercase(query@)),
            decreases entries.len() - i,
        {
            assert(es[i as int].0 == entries@[i as int].path@);
            if score_fails_exec(entries[i].path.as_str(), lower_query.as_str()) {
                assert(lowercase(query@).len() > 0);
                assert(score_fails(es[i as int].0, lowercase(query@)));
                return None;
            }
            i += 1;
        }
    }
    Some(filter_file_entries(entries, query, limit))
}


/// For a query without `/`, how the file name outranks the rest of the
/// path: a file whose name contains the query scores at least 50, while an
/// entry (file or directory) whose name does not contain it scores at most
/// 40, so a name match always ranks above a match elsewhere in the path.
/// A name equal to the query beats a name that starts with it, which beats
/// a name that only contains it.
pub proof fn law_name_match_ranks_first(p1: Seq<char>, p2: Seq<char>, dir2: bool, lq: Seq<char>)
    requires
        find_char(lq, '/') is None,
    ensures
        ({
            let n1 = after_last(lowercase(p1), '/');
            let n2 = after_last(lowercase(p2), '/');
            &&& contains(n1, lq) ==> entry_score(p1, false, lq) >= 50
            &&& n2 != lq && !starts_with(n2, lq) && !contains(n2, lq) ==> entry_score(p2, dir2, lq)
                <= 40
            &&& contains(n1, lq) && n2 != lq && !starts_with(n2, lq) && !contains(n2, lq) ==> entry_score(
                p1,
                false,
                lq,
            ) > entry_score(p2, dir2, lq)
            &&& n1 == lq ==> entry_score(p1, false, lq) == 100
            &&& n1 != lq && starts_with(n1, lq) ==> entry_score(p1, false, lq) == 80
            &&& n1 != lq && !starts_with(n1, lq) && contains(n1, lq) ==> entry_score(p1, false, lq)
                == 50
        }),
{
}

} // verus!
