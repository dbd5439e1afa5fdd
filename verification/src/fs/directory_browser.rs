//! The working-directory picker: start directory, parents and drives.

use vstd::prelude::*;
use crate::paths::{
    path_of_segments, path_of_segments_exec, resolve, resolve_spec, resolved_segments,
    resolve_segments, segs_view,
};
use crate::text::{
    append_chars, chars_of, has_prefix, lowercase, starts_with, string_of, sub_vec, to_lowercase,
};

verus! {

broadcast use vstd::string::group_string_axioms;

/// A directory offered by the picker.
#[derive(Debug, Clone)]
pub struct BrowsableDirectory {
    pub name: String,
    pub path: String,
}

/// The drive picker is shown on Windows when no directory is given.
pub fn should_show_windows_drive_picker(directory: Option<&str>, on_windows: bool) -> (b: bool)
    ensures
        b == (on_windows && directory is None),
{
    on_windows && directory.is_none()
}

/// Drive letters `A` to `Z`.
pub open spec fn drive_letter(i: int) -> char {
    seq![
        'A', 'B', 'C', 'D', 'E', 'F', 'G', 'H', 'I', 'J', 'K', 'L', 'M', 'N', 'O', 'P', 'Q', 'R',
        'S', 'T', 'U', 'V', 'W', 'X', 'Y', 'Z',
    ][i]
}

/// The 26 drive candidates `A:` to `Z:`, with paths `A:\` to `Z:\`.
pub fn get_windows_drive_candidates() -> (r: Vec<BrowsableDirectory>)
    ensures
        r@.len() == 26,
        forall|i: int|
            0 <= i < 26 ==> (#[trigger] r@[i]).name@ == seq![drive_letter(i), ':'] && r@[i].path@
                == seq![drive_letter(i), ':', '\\'],
{
    let letters = [
        'A', 'B', 'C', 'D', 'E', 'F', 'G', 'H', 'I', 'J', 'K', 'L', 'M', 'N', 'O', 'P', 'Q', 'R',
        'S', 'T', 'U', 'V', 'W', 'X', 'Y', 'Z',
    ];
    assert(letters@ == seq![
        'A', 'B', 'C', 'D', 'E', 'F', 'G', 'H', 'I', 'J', 'K', 'L', 'M', 'N', 'O', 'P', 'Q', 'R',
        'S', 'T', 'U', 'V', 'W', 'X', 'Y', 'Z',
    ]);
    let mut out: Vec<BrowsableDirectory> = Vec::new();
    let mut i: usize = 0;
    while i < 26
        invariant
            i <= 26,
            letters@ == seq![
                'A', 'B', 'C', 'D', 'E', 'F', 'G', 'H', 'I', 'J', 'K', 'L', 'M', 'N', 'O', 'P',
                'Q', 'R', 'S', 'T', 'U', 'V', 'W', 'X', 'Y', 'Z',
            ],
            out@.len() == i,
            forall|k: int|
                0 <= k < i ==> (#[trigger] out@[k]).name@ == seq![drive_letter(k), ':']
                    && out@[k].path@ == seq![drive_letter(k), ':', '\\'],
        decreases 26 - i,
    {
        let l = letters[i];
        let mut name: Vec<char> = Vec::new();
        name.push(l);
        name.push(':');
        let mut path: Vec<char> = Vec::new();
        path.push(l);
        path.push(':');
        path.push('\\');
        assert(name@ =~= seq![drive_letter(i as int), ':']);
        assert(path@ =~= seq![drive_letter(i as int), ':', '\\']);
        out.push(
            BrowsableDirectory {
                name: string_of(name.as_slice()),
                path: string_of(path.as_slice()),
            },
        );
        i += 1;
    }
    out
}

/// The directory to start browsing from: the given one, else `home`.
pub fn get_browse_start_directory(directory: Option<&str>, home: &str) -> (r: String)
    ensures
        r@ == match directory {
            Some(d) => d@,
            None => home@,
        },
{
    match directory {
        Some(d) => string_of(chars_of(d).as_slice()),
        None => string_of(chars_of(home).as_slice()),
    }
}

/// `~` and `~/...` expanded with `home`.
pub open spec fn expand_home(d: Seq<char>, home: Seq<char>) -> Seq<char> {
    if d == seq!['~'] {
        home
    } else if starts_with(d, seq!['~', '/']) {
        home.push('/') + d.skip(2)
    } else {
        d
    }
}

/// A directory as the picker uses it: `~` expanded, then resolved from `cwd`.
pub fn normalize_directory(directory: &str, home: &str, cwd: &str) -> (r: String)
    ensures
        r@ == resolve_spec(expand_home(directory@, home@), cwd@),
{
    let d = chars_of(directory);
    let tilde_slash = chars_of("~/");
    assert(tilde_slash@ == seq!['~', '/']) by {
        reveal_strlit("~/");
    }
    let expanded = if d.len() == 1 && d[0] == '~' {
        assert(d@ =~= seq!['~']);
        chars_of(home)
    } else if has_prefix(&d, &tilde_slash) {
        let mut e = chars_of(home);
        e.push('/');
        let rest = sub_vec(&d, 2, d.len());
        append_chars(&mut e, &rest);
        e
    } else {
        assert(d@ != seq!['~']);
        d
    };
    let e = string_of(expanded.as_slice());
    resolve(e.as_str(), cwd)
}

/// The parent of a resolved directory; `None` for the root.
pub open spec fn parent_directory(directory: Seq<char>, cwd: Seq<char>) -> Option<Seq<char>> {
    let segs = resolved_segments(directory, cwd);
    if segs.len() == 0 {
        None
    } else {
        Some(path_of_segments(segs.drop_last()))
    }
}

/// The parent of a directory after resolution (`/a/b/../c` gives `/a`);
/// `None` for the root.
pub fn get_parent_directory(directory: &str, cwd: &str) -> (r: Option<String>)
    ensures
        match parent_directory(directory@, cwd@) {
            Some(p) => r matches Some(s) && s@ == p,
            None => r is None,
        },
{
    let segs = resolve_segments(directory, cwd);
    if segs.len() == 0 {
        return None;
    }
    let parent = path_of_segments_exec(&segs, segs.len() - 1);
    assert(segs_view(segs@).take(segs.len() - 1) =~= segs_view(segs@).drop_last());
    Some(string_of(parent.as_slice()))
}

/// `a < b` in the order of `String`: lexicographic by code point (the
/// order of the UTF-8 bytes), a proper prefix first.
pub open spec fn code_less(a: Seq<char>, b: Seq<char>) -> bool
    decreases a.len(),
{
    if a.len() == 0 {
        b.len() > 0
    } else if b.len() == 0 {
        false
    } else if a[0] != b[0] {
        a[0] < b[0]
    } else {
        code_less(a.drop_first(), b.drop_first())
    }
}

/// A directory's name and path.
pub open spec fn dir_view(d: BrowsableDirectory) -> (Seq<char>, Seq<char>) {
    (d.name@, d.path@)
}

pub open spec fn dirs_view(v: Seq<BrowsableDirectory>) -> Seq<(Seq<char>, Seq<char>)> {
    v.map_values(|d: BrowsableDirectory| dir_view(d))
}

/// The sort key of a directory: its name in lower case.
pub open spec fn dir_key(d: (Seq<char>, Seq<char>)) -> Seq<char> {
    lowercase(d.0)
}

/// Inserts `x` after the last directory whose key is not greater.
pub open spec fn insert_dir(s: Seq<(Seq<char>, Seq<char>)>, x: (Seq<char>, Seq<char>)) -> Seq<
    (Seq<char>, Seq<char>),
>
    decreases s.len(),
{
    if s.len() == 0 {
        seq![x]
    } else if code_less(dir_key(x), dir_key(s.last())) {
        insert_dir(s.drop_last(), x).push(s.last())
    } else {
        s.push(x)
    }
}

/// Stable sort of directories by lower-case name.
pub open spec fn sort_dirs(s: Seq<(Seq<char>, Seq<char>)>) -> Seq<(Seq<char>, Seq<char>)>
    decreases s.len(),
{
    if s.len() == 0 {
        s
    } else {
        insert_dir(sort_dirs(s.drop_last()), s.last())
    }
}

pub fn code_less_exec(a: &Vec<char>, b: &Vec<char>) -> (r: bool)
    ensures
        r == code_less(a@, b@),
{
    let mut i: usize = 0;
    assert(a@.skip(0) =~= a@ && b@.skip(0) =~= b@);
    while i < a.len() && i < b.len() && a[i] == b[i]
        invariant
            i <= a.len() && i <= b.len(),
            code_less(a@, b@) == code_less(a@.skip(i as int), b@.skip(i as int)),
        decreases a.len() - i,
    {
        assert(a@.skip(i as int).drop_first() =~= a@.skip(i + 1));
        assert(b@.skip(i as int).drop_first() =~= b@.skip(i + 1));
        i += 1;
    }
    if i == a.len() {
        i < b.len()
    } else if i == b.len() {
        false
    } else {
        assert(a@.skip(i as int)[0] == a@[i as int] && b@.skip(i as int)[0] == b@[i as int]);
        a[i] < b[i]
    }
}

fn dir_key_exec(d: &BrowsableDirectory) -> (r: Vec<char>)
    ensures
        r@ == dir_key(dir_view(*d)),
{
    chars_of(to_lowercase(d.name.as_str()).as_str())
}

fn insert_dir_exec(v: &mut Vec<BrowsableDirectory>, x: BrowsableDirectory)
    ensures
        dirs_view(final(v)@) == insert_dir(dirs_view(old(v)@), dir_view(x)),
{
    let ghost xs = dirs_view(v@);
    let kx = dir_key_exec(&x);
    let mut j: usize = v.len();
    assert(xs.take(j as int) =~= xs && xs.skip(j as int) =~= Seq::<(Seq<char>, Seq<char>)>::empty());
    while j > 0 && code_less_exec(&kx, &dir_key_exec(&v[j - 1]))
        invariant
            j <= v.len(),
            xs == dirs_view(v@),
            kx@ == dir_key(dir_view(x)),
            insert_dir(xs, dir_view(x)) == insert_dir(xs.take(j as int), dir_view(x)) + xs.skip(
                j as int,
            ),
        decreases j,
    {
        assert(xs.take(j as int).drop_last() =~= xs.take(j - 1));
        assert(xs.skip(j - 1) =~= seq![xs[j - 1]] + xs.skip(j as int));
        assert(xs.take(j as int).last() == xs[j - 1]);
        assert(insert_dir(xs.take(j - 1), dir_view(x)).push(xs[j - 1]) + xs.skip(j as int)
            =~= insert_dir(xs.take(j - 1), dir_view(x)) + xs.skip(j - 1));
        j -= 1;
    }
    let ghost xv = dir_view(x);
    v.insert(j, x);
    assert(dirs_view(v@) =~= xs.take(j as int).push(xv) + xs.skip(j as int));
}

/// Sorts directories by name, ignoring case (`String` order of the
/// lower-case names; directories with equal keys keep their order).
pub fn sort_directories(dirs: Vec<BrowsableDirectory>) -> (r: Vec<BrowsableDirectory>)
    ensures
        dirs_view(r@) == sort_dirs(dirs_view(dirs@)),
{
    let ghost orig = dirs@;
    let mut rest = dirs;
    let mut out: Vec<BrowsableDirectory> = Vec::new();
    let mut n: usize = 0;
    assert(orig.len() == rest.len());
    assert(dirs_view(orig).take(0) =~= Seq::<(Seq<char>, Seq<char>)>::empty());
    while rest.len() > 0
        invariant
            n <= orig.len() <= usize::MAX,
            rest@ == orig.skip(n as int),
            dirs_view(out@) == sort_dirs(dirs_view(orig).take(n as int)),
        decreases rest.len(),
    {
        let d = rest.remove(0);
        assert(d == orig[n as int]);
        assert(dirs_view(orig).take(n + 1).drop_last() =~= dirs_view(orig).take(n as int));
        insert_dir_exec(&mut out, d);
        n += 1;
        assert(rest@ =~= orig.skip(n as int));
    }
    assert(dirs_view(orig).take(n as int) =~= dirs_view(orig));
    out
}

pub proof fn lemma_code_less_irreflexive(a: Seq<char>)
    ensures
        !code_less(a, a),
    decreases a.len(),
{
    if a.len() > 0 {
        lemma_code_less_irreflexive(a.drop_first());
    }
}

pub proof fn lemma_code_less_transitive(a: Seq<char>, b: Seq<char>, c: Seq<char>)
    requires
        code_less(a, b),
        code_less(b, c),
    ensures
        code_less(a, c),
    decreases a.len(),
{
    if a.len() > 0 && b.len() > 0 && c.len() > 0 && a[0] == b[0] && b[0] == c[0] {
        lemma_code_less_transitive(a.drop_first(), b.drop_first(), c.drop_first());
    }
}

pub proof fn lemma_code_less_total(a: Seq<char>, b: Seq<char>)
    ensures
        a == b || code_less(a, b) || code_less(b, a),
    decreases a.len(),
{
    if a.len() > 0 && b.len() > 0 {
        if a[0] == b[0] {
            lemma_code_less_total(a.drop_first(), b.drop_first());
            if a.drop_first() == b.drop_first() {
                assert(a =~= seq![a[0]] + a.drop_first());
                assert(b =~= seq![b[0]] + b.drop_first());
            }
        }
    } else if a.len() == 0 && b.len() == 0 {
        assert(a =~= b);
    }
}

/// Not greater: `a <= b` in the order of `code_less`.
pub open spec fn code_le(a: Seq<char>, b: Seq<char>) -> bool {
    !code_less(b, a)
}

pub proof fn lemma_code_le_transitive(a: Seq<char>, b: Seq<char>, c: Seq<char>)
    requires
        code_le(a, b),
        code_le(b, c),
    ensures
        code_le(a, c),
{
    lemma_code_less_total(a, b);
    lemma_code_less_total(b, c);
    if code_less(c, a) {
        if code_less(a, b) {
            lemma_code_less_transitive(c, a, b);
        }
        if a == b && code_less(b, c) {
            lemma_code_less_transitive(b, c, a);
            lemma_code_less_irreflexive(a);
        }
    }
}

/// Directories in non-decreasing key order.
pub open spec fn dirs_sorted(s: Seq<(Seq<char>, Seq<char>)>) -> bool {
    forall|i: int, j: int| 0 <= i < j < s.len() ==> code_le(dir_key(#[trigger] s[i]), dir_key(#[trigger] s[j]))
}

proof fn lemma_insert_dir(s: Seq<(Seq<char>, Seq<char>)>, x: (Seq<char>, Seq<char>))
    requires
        dirs_sorted(s),
    ensures
        dirs_sorted(insert_dir(s, x)),
        insert_dir(s, x).to_multiset() == s.to_multiset().insert(x),
    decreases s.len(),
{
    broadcast use vstd::seq_lib::group_to_multiset_ensures;

    if s.len() == 0 {
        assert(seq![x] =~= Seq::<(Seq<char>, Seq<char>)>::empty().push(x));
    } else {
        let p = s.drop_last();
        let last = s.last();
        assert(s =~= p.push(last));
        assert(dirs_sorted(p)) by {
            assert forall|i: int, j: int| 0 <= i < j < p.len() implies code_le(
                dir_key(#[trigger] p[i]),
                dir_key(#[trigger] p[j]),
            ) by {
                assert(p[i] == s[i] && p[j] == s[j]);
            }
        }
        if code_less(dir_key(x), dir_key(last)) {
            lemma_insert_dir(p, x);
            let q = insert_dir(p, x);
            assert(q.to_multiset() == p.to_multiset().insert(x));
            assert forall|k: int| 0 <= k < q.len() implies code_le(
                dir_key(#[trigger] q[k]),
                dir_key(last),
            ) by {
                assert(q.to_multiset().count(q[k]) > 0);
                if q[k] == x {
                    lemma_code_less_irreflexive(dir_key(x));
                    if code_less(dir_key(last), dir_key(x)) {
                        lemma_code_less_transitive(dir_key(x), dir_key(last), dir_key(x));
                    }
                } else {
                    assert(p.to_multiset().count(q[k]) > 0);
                    assert(p.contains(q[k]));
                    let m = choose|m: int| 0 <= m < p.len() && p[m] == q[k];
                    assert(s[m] == q[k] && s[s.len() - 1] == last);
                }
            }
            let r = q.push(last);
            assert forall|i: int, j: int| 0 <= i < j < r.len() implies code_le(
                dir_key(#[trigger] r[i]),
                dir_key(#[trigger] r[j]),
            ) by {
                if j == q.len() {
                    assert(r[i] == q[i]);
                } else {
                    assert(r[i] == q[i] && r[j] == q[j]);
                }
            }
        } else {
            let r = s.push(x);
            assert forall|i: int, j: int| 0 <= i < j < r.len() implies code_le(
                dir_key(#[trigger] r[i]),
                dir_key(#[trigger] r[j]),
            ) by {
                if j == s.len() {
                    assert(r[i] == s[i]);
                    if i < s.len() - 1 {
                        lemma_code_le_transitive(dir_key(s[i]), dir_key(last), dir_key(x));
                    }
                } else {
                    assert(r[i] == s[i] && r[j] == s[j]);
                }
            }
        }
    }
}

/// The directories of the picker come out sorted by lower-case name, and
/// are the directories given, each as often as given.
pub proof fn law_directories_sorted(s: Seq<(Seq<char>, Seq<char>)>)
    ensures
        dirs_sorted(sort_dirs(s)),
        sort_dirs(s).to_multiset() == s.to_multiset(),
    decreases s.len(),
{
    broadcast use vstd::seq_lib::group_to_multiset_ensures;

    if s.len() > 0 {
        law_directories_sorted(s.drop_last());
        lemma_insert_dir(sort_dirs(s.drop_last()), s.last());
        assert(s =~= s.drop_last().push(s.last()));
    }
}

} // verus!
