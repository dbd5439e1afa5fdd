//! The file allow-list: session directories, `~/pi-cwd-YYYY-MM-DD`
//! directories and roots added at run time, cached for five seconds.

use vstd::prelude::*;
use crate::fs::allowed_roots::{insert_new, insert_string, no_duplicates, strings_view};
use crate::text::{chars_of, replace_char, replace_char_exec};

verus! {

broadcast use vstd::string::group_string_axioms;

/// How long a computed allow-list stays valid, in milliseconds.
pub const ALLOWED_ROOTS_TTL_MS: u64 = 5000;

/// A Windows absolute path: `X:\` or `X:/` with an ASCII drive letter, or a
/// UNC path starting with `\\` or `//`.
pub open spec fn is_windows_absolute(p: Seq<char>) -> bool {
    ||| (p.len() >= 3 && crate::file::paths::is_ascii_alpha(p[0]) && p[1] == ':' && (p[2] == '\\'
        || p[2] == '/'))
    ||| (p.len() >= 2 && p[0] == '\\' && p[1] == '\\')
    ||| (p.len() >= 2 && p[0] == '/' && p[1] == '/')
}

/// Whether a path is a Windows absolute path.
pub fn is_windows_absolute_path(file_path: &str) -> (b: bool)
    ensures
        b == is_windows_absolute(file_path@),
{
    let p = chars_of(file_path);
    (p.len() >= 3 && (('a' <= p[0] && p[0] <= 'z') || ('A' <= p[0] && p[0] <= 'Z')) && p[1] == ':'
        && (p[2] == '\\' || p[2] == '/')) || (p.len() >= 2 && p[0] == '\\' && p[1] == '\\') || (
    p.len() >= 2 && p[0] == '/' && p[1] == '/')
}

/// `pi-cwd-YYYY-MM-DD`: the name of a default session directory.
pub open spec fn is_pi_cwd_name(n: Seq<char>) -> bool {
    &&& n.len() == 17
    &&& crate::text::starts_with(n, "pi-cwd-"@)
    &&& forall|i: int|
        7 <= i < 17 ==> if i == 11 || i == 14 {
            n[i] == '-'
        } else {
            crate::text::is_digit(#[trigger] n[i])
        }
}

/// Whether a directory name has the shape of a default session directory,
/// `pi-cwd-YYYY-MM-DD`.
pub fn is_pi_cwd_dir_name(name: &str) -> (b: bool)
    ensures
        b == is_pi_cwd_name(name@),
{
    let n = chars_of(name);
    let prefix = chars_of("pi-cwd-");
    if n.len() != 17 || !crate::text::has_prefix(&n, &prefix) {
        return false;
    }
    let mut i: usize = 7;
    while i < 17
        invariant
            n@ == name@,
            n.len() == 17,
            7 <= i <= 17,
            forall|k: int|
                7 <= k < i ==> if k == 11 || k == 14 {
                    n@[k] == '-'
                } else {
                    crate::text::is_digit(#[trigger] n@[k])
                },
        decreases 17 - i,
    {
        let ok = if i == 11 || i == 14 {
            n[i] == '-'
        } else {
            '0' <= n[i] && n[i] <= '9'
        };
        if !ok {
            return false;
        }
        i += 1;
    }
    true
}

/// The cached allow-list.
pub struct AllowedRootsCache {
    roots: Vec<String>,
    expires_at_ms: Option<u64>,
}

impl AllowedRootsCache {
    /// The cached roots.
    pub closed spec fn cached_roots(&self) -> Seq<Seq<char>> {
        strings_view(self.roots@)
    }

    /// When the cached roots stop being valid (none: nothing cached).
    pub closed spec fn expiry(&self) -> Option<u64> {
        self.expires_at_ms
    }

    /// Nothing is cached.
    pub open spec fn is_invalidated(&self) -> bool {
        self.expiry() is None
    }

    /// An empty cache.
    pub fn new() -> (c: AllowedRootsCache)
        ensures
            c.is_invalidated(),
    {
        AllowedRootsCache { roots: Vec::new(), expires_at_ms: None }
    }

    /// The cached roots when they are still valid at `now_ms`.
    pub fn cached(&self, now_ms: u64) -> (r: Option<Vec<String>>)
        ensures
            match self.expiry() {
                Some(e) if e > now_ms => r matches Some(v) && strings_view(v@)
                    == self.cached_roots(),
                _ => r is None,
            },
    {
        match self.expires_at_ms {
            Some(e) => {
                if e > now_ms {
                    let mut out: Vec<String> = Vec::new();
                    let mut i: usize = 0;
                    while i < self.roots.len()
                        invariant
                            i <= self.roots.len(),
                            strings_view(out@) =~= strings_view(self.roots@).take(i as int),
                        decreases self.roots.len() - i,
                    {
                        let ghost before = strings_view(out@);
                        out.push(self.roots[i].clone());
                        assert(strings_view(out@) =~= before.push(self.roots@[i as int]@));
                        i += 1;
                    }
                    Some(out)
                } else {
                    None
                }
            },
            None => None,
        }
    }

    /// Caches `roots` for [`ALLOWED_ROOTS_TTL_MS`] from `now_ms`.
    pub fn store(&mut self, roots: Vec<String>, now_ms: u64)
        requires
            now_ms <= u64::MAX - ALLOWED_ROOTS_TTL_MS,
        ensures
            final(self).cached_roots() == strings_view(roots@),
            final(self).expiry() == Some((now_ms + ALLOWED_ROOTS_TTL_MS) as u64),
    {
        self.roots = roots;
        self.expires_at_ms = Some(now_ms + ALLOWED_ROOTS_TTL_MS);
    }
}

/// Drops the cached allow-list (after sessions change).
pub fn invalidate_allowed_roots_cache(cache: &mut AllowedRootsCache)
    ensures
        final(cache).is_invalidated(),
        final(cache).cached_roots() == old(cache).cached_roots(),
{
    cache.expires_at_ms = None;
}

/// The allow-list built from its three sources, in order: the non-empty
/// session roots, the `pi-cwd-YYYY-MM-DD` entries of the home directory
/// (given as name and path), then the added roots; each path with
/// backslashes turned into slashes, each root once.
pub open spec fn combined_roots(
    session: Seq<Seq<char>>,
    home_entries: Seq<(Seq<char>, Seq<char>)>,
    added: Seq<Seq<char>>,
) -> Seq<Seq<char>> {
    insert_all(
        insert_home(insert_session(seq![], session), home_entries),
        added,
    )
}

/// Inserts the non-empty normalised session roots.
pub open spec fn insert_session(acc: Seq<Seq<char>>, session: Seq<Seq<char>>) -> Seq<Seq<char>>
    decreases session.len(),
{
    if session.len() == 0 {
        acc
    } else {
        let a = insert_session(acc, session.drop_last());
        let n = replace_char(session.last(), '\\', '/');
        if n.len() > 0 {
            insert_new(a, n)
        } else {
            a
        }
    }
}

/// Inserts the normalised paths of the home entries named like default
/// session directories.
pub open spec fn insert_home(acc: Seq<Seq<char>>, entries: Seq<(Seq<char>, Seq<char>)>) -> Seq<
    Seq<char>,
>
    decreases entries.len(),
{
    if entries.len() == 0 {
        acc
    } else {
        let a = insert_home(acc, entries.drop_last());
        let e = entries.last();
        if is_pi_cwd_name(e.0) {
            insert_new(a, replace_char(e.1, '\\', '/'))
        } else {
            a
        }
    }
}

/// Inserts roots as they are.
pub open spec fn insert_all(acc: Seq<Seq<char>>, xs: Seq<Seq<char>>) -> Seq<Seq<char>>
    decreases xs.len(),
{
    if xs.len() == 0 {
        acc
    } else {
        insert_new(insert_all(acc, xs.drop_last()), xs.last())
    }
}

proof fn lemma_insert_new_keeps(s: Seq<Seq<char>>, x: Seq<char>, y: Seq<char>)
    ensures
        insert_new(s, x).contains(x),
        s.contains(y) ==> insert_new(s, x).contains(y),
{
    if !s.contains(x) {
        assert(s.push(x)[s.len() as int] == x);
        if s.contains(y) {
            let k = choose|k: int| 0 <= k < s.len() && s[k] == y;
            assert(s.push(x)[k] == y);
        }
    }
}

proof fn lemma_insert_all_keeps(acc: Seq<Seq<char>>, xs: Seq<Seq<char>>, y: Seq<char>)
    ensures
        acc.contains(y) ==> insert_all(acc, xs).contains(y),
        xs.contains(y) ==> insert_all(acc, xs).contains(y),
    decreases xs.len(),
{
    if xs.len() > 0 {
        lemma_insert_all_keeps(acc, xs.drop_last(), y);
        lemma_insert_new_keeps(insert_all(acc, xs.drop_last()), xs.last(), y);
        if xs.contains(y) && y != xs.last() {
            let k = choose|k: int| 0 <= k < xs.len() && xs[k] == y;
            assert(xs.drop_last()[k] == y);
        }
    }
}

proof fn lemma_insert_home_keeps(acc: Seq<Seq<char>>, entries: Seq<(Seq<char>, Seq<char>)>, y: Seq<char>)
    ensures
        acc.contains(y) ==> insert_home(acc, entries).contains(y),
    decreases entries.len(),
{
    if entries.len() > 0 {
        lemma_insert_home_keeps(acc, entries.drop_last(), y);
        let e = entries.last();
        lemma_insert_new_keeps(insert_home(acc, entries.drop_last()), replace_char(e.1, '\\', '/'), y);
    }
}

proof fn lemma_insert_session_contains(acc: Seq<Seq<char>>, session: Seq<Seq<char>>, k: int)
    requires
        0 <= k < session.len(),
        replace_char(session[k], '\\', '/').len() > 0,
    ensures
        insert_session(acc, session).contains(replace_char(session[k], '\\', '/')),
    decreases session.len(),
{
    let n = replace_char(session[k], '\\', '/');
    let last = replace_char(session.last(), '\\', '/');
    if k == session.len() - 1 {
        lemma_insert_new_keeps(insert_session(acc, session.drop_last()), last, n);
    } else {
        assert(session.drop_last()[k] == session[k]);
        lemma_insert_session_contains(acc, session.drop_last(), k);
        lemma_insert_new_keeps(insert_session(acc, session.drop_last()), last, n);
    }
}

/// The allow-list holds every root added at run time and every non-empty
/// session root (backslashes turned into slashes).
pub proof fn law_allowed_roots_cover_sources(
    session: Seq<Seq<char>>,
    home_entries: Seq<(Seq<char>, Seq<char>)>,
    added: Seq<Seq<char>>,
)
    ensures
        forall|k: int|
            0 <= k < added.len() ==> combined_roots(session, home_entries, added).contains(
                #[trigger] added[k],
            ),
        forall|k: int|
            0 <= k < session.len() && replace_char(#[trigger] session[k], '\\', '/').len() > 0
                ==> combined_roots(session, home_entries, added).contains(
                replace_char(session[k], '\\', '/'),
            ),
{
    let base = insert_home(insert_session(seq![], session), home_entries);
    assert forall|k: int| 0 <= k < added.len() implies combined_roots(
        session,
        home_entries,
        added,
    ).contains(#[trigger] added[k]) by {
        lemma_insert_all_keeps(base, added, added[k]);
    }
    assert forall|k: int|
        0 <= k < session.len() && replace_char(#[trigger] session[k], '\\', '/').len()
            > 0 implies combined_roots(session, home_entries, added).contains(
        replace_char(session[k], '\\', '/'),
    ) by {
        let n = replace_char(session[k], '\\', '/');
        lemma_insert_session_contains(seq![], session, k);
        lemma_insert_home_keeps(insert_session(seq![], session), home_entries, n);
        lemma_insert_all_keeps(base, added, n);
    }
}

pub open spec fn entries_view(v: Seq<(String, String)>) -> Seq<(Seq<char>, Seq<char>)> {
    v.map_values(|e: (String, String)| (e.0@, e.1@))
}

/// Builds the allow-list from its sources (see [`combined_roots`]).
pub fn combine_allowed_roots(
    session_roots: &Vec<String>,
    home_entries: &Vec<(String, String)>,
    additional: &Vec<String>,
) -> (r: Vec<String>)
    ensures
        strings_view(r@) == combined_roots(
            strings_view(session_roots@),
            entries_view(home_entries@),
            strings_view(additional@),
        ),
        no_duplicates(strings_view(r@)),
{
    let ghost sv = strings_view(session_roots@);
    let ghost hv = entries_view(home_entries@);
    let ghost av = strings_view(additional@);
    let mut roots: Vec<String> = Vec::new();
    let mut i: usize = 0;
    assert(sv.take(0) =~= Seq::<Seq<char>>::empty());
    assert(strings_view(roots@) =~= Seq::<Seq<char>>::empty());
    while i < session_roots.len()
        invariant
            i <= session_roots.len(),
            sv == strings_view(session_roots@),
            strings_view(roots@) == insert_session(seq![], sv.take(i as int)),
            no_duplicates(strings_view(roots@)),
        decreases session_roots.len() - i,
    {
        assert(sv.take(i + 1).drop_last() =~= sv.take(i as int));
        assert(sv[i as int] == session_roots@[i as int]@);
        let c = chars_of(session_roots[i].as_str());
        let n = replace_char_exec(&c, '\\', '/');
        if n.len() > 0 {
            insert_string(&mut roots, &n);
        }
        i += 1;
    }
    assert(sv.take(session_roots.len() as int) =~= sv);
    let ghost after_session = strings_view(roots@);
    let mut j: usize = 0;
    assert(hv.take(0) =~= Seq::<(Seq<char>, Seq<char>)>::empty());
    while j < home_entries.len()
        invariant
            j <= home_entries.len(),
            hv == entries_view(home_entries@),
            strings_view(roots@) == insert_home(after_session, hv.take(j as int)),
            no_duplicates(strings_view(roots@)),
        decreases home_entries.len() - j,
    {
        assert(hv.take(j + 1).drop_last() =~= hv.take(j as int));
        assert(hv[j as int] == (home_entries@[j as int].0@, home_entries@[j as int].1@));
        if is_pi_cwd_dir_name(home_entries[j].0.as_str()) {
            let c = chars_of(home_entries[j].1.as_str());
            let n = replace_char_exec(&c, '\\', '/');
            insert_string(&mut roots, &n);
        }
        j += 1;
    }
    assert(hv.take(home_entries.len() as int) =~= hv);
    let ghost after_home = strings_view(roots@);
    let mut k: usize = 0;
    assert(av.take(0) =~= Seq::<Seq<char>>::empty());
    while k < additional.len()
        invariant
            k <= additional.len(),
            av == strings_view(additional@),
            strings_view(roots@) == insert_all(after_home, av.take(k as int)),
            no_duplicates(strings_view(roots@)),
        decreases additional.len() - k,
    {
        assert(av.take(k + 1).drop_last() =~= av.take(k as int));
        assert(av[k as int] == additional@[k as int]@);
        let c = chars_of(additional[k].as_str());
        insert_string(&mut roots, &c);
        k += 1;
    }
    assert(av.take(additional.len() as int) =~= av);
    roots
}

/// Whether `target` lies within one of the allowed roots (see
/// [`crate::fs::path_security::is_path_within_roots`]).
pub fn is_file_path_allowed(target: &str, allowed_roots: &Vec<String>, cwd: &str) -> (b: bool)
    ensures
        b == crate::fs::path_security::within_roots(target@, strings_view(allowed_roots@), cwd@),
{
    crate::fs::path_security::is_path_within_roots(target, allowed_roots, cwd)
}

} // verus!
