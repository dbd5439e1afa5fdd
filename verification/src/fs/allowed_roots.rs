//! Roots added to the file allow-list at run time.

use vstd::prelude::*;
use crate::fs::file_access::AllowedRootsCache;
use crate::text::{chars_of, chars_eq, replace_char, replace_char_exec, string_of};

verus! {

broadcast use vstd::string::group_string_axioms;

/// Backslashes turned into slashes.
pub fn normalize_slashes(file_path: &str) -> (r: String)
    ensures
        r@ == replace_char(file_path@, '\\', '/'),
{
    let p = chars_of(file_path);
    let q = replace_char_exec(&p, '\\', '/');
    string_of(q.as_slice())
}

/// The views of a list of strings.
pub open spec fn strings_view(v: Seq<String>) -> Seq<Seq<char>> {
    v.map_values(|s: String| s@)
}

/// No element occurs twice.
pub open spec fn no_duplicates(s: Seq<Seq<char>>) -> bool {
    forall|i: int, j: int| 0 <= i < j < s.len() ==> s[i] != s[j]
}

/// `s` with `x` appended unless already present (a set insertion that keeps
/// the order of first insertion).
pub open spec fn insert_new(s: Seq<Seq<char>>, x: Seq<char>) -> Seq<Seq<char>> {
    if s.contains(x) {
        s
    } else {
        s.push(x)
    }
}

/// Whether `x` occurs in `v`.
pub fn contains_string(v: &Vec<String>, x: &Vec<char>) -> (b: bool)
    ensures
        b == strings_view(v@).contains(x@),
{
    let mut i: usize = 0;
    while i < v.len()
        invariant
            i <= v.len(),
            forall|j: int| 0 <= j < i ==> v@[j]@ != x@,
        decreases v.len() - i,
    {
        let c = chars_of(v[i].as_str());
        if chars_eq(&c, x) {
            assert(strings_view(v@)[i as int] == x@);
            return true;
        }
        i += 1;
    }
    assert forall|j: int| 0 <= j < strings_view(v@).len() implies strings_view(v@)[j] != x@ by {
        assert(strings_view(v@)[j] == v@[j]@);
    }
    false
}

/// Set insertion on a list of strings.
pub fn insert_string(v: &mut Vec<String>, x: &Vec<char>)
    requires
        no_duplicates(strings_view(old(v)@)),
    ensures
        strings_view(final(v)@) == insert_new(strings_view(old(v)@), x@),
        no_duplicates(strings_view(final(v)@)),
{
    if !contains_string(v, x) {
        let ghost before = strings_view(v@);
        v.push(string_of(x.as_slice()));
        assert(strings_view(v@) =~= before.push(x@));
    }
}

/// The roots added with [`allow_file_root`].
pub struct AdditionalRoots {
    roots: Vec<String>,
}

impl AdditionalRoots {
    /// The roots, in order of first addition.
    pub closed spec fn view_roots(&self) -> Seq<Seq<char>> {
        strings_view(self.roots@)
    }

    /// No root is listed twice.
    pub closed spec fn wf(&self) -> bool {
        no_duplicates(strings_view(self.roots@))
    }

    /// An empty registry.
    pub fn new() -> (r: AdditionalRoots)
        ensures
            r.wf(),
            r.view_roots() == Seq::<Seq<char>>::empty(),
    {
        let r = AdditionalRoots { roots: Vec::new() };
        assert(strings_view(r.roots@) =~= Seq::<Seq<char>>::empty());
        r
    }
}

/// The roots added so far.
pub fn get_additional_allowed_roots(registry: &AdditionalRoots) -> (r: Vec<String>)
    ensures
        strings_view(r@) == registry.view_roots(),
{
    let mut out: Vec<String> = Vec::new();
    let mut i: usize = 0;
    while i < registry.roots.len()
        invariant
            i <= registry.roots.len(),
            strings_view(out@) =~= strings_view(registry.roots@).take(i as int),
        decreases registry.roots.len() - i,
    {
        let ghost before = strings_view(out@);
        out.push(registry.roots[i].clone());
        assert(strings_view(out@) =~= before.push(registry.roots@[i as int]@));
        i += 1;
    }
    out
}

/// Adds a root to the allow-list (backslashes turned into slashes) and
/// drops the cached allow-list so that the new root counts at once.  An
/// empty root is ignored.
pub fn allow_file_root(registry: &mut AdditionalRoots, cache: &mut AllowedRootsCache, root: &str)
    requires
        old(registry).wf(),
    ensures
        final(registry).wf(),
        root@.len() == 0 ==> final(registry).view_roots() == old(registry).view_roots(),
        root@.len() == 0 ==> final(cache).expiry() == old(cache).expiry(),
        root@.len() > 0 ==> final(registry).view_roots() == insert_new(
            old(registry).view_roots(),
            replace_char(root@, '\\', '/'),
        ) && final(cache).is_invalidated(),
{
    if root.is_empty() {
        return;
    }
    let r = chars_of(root);
    let normalized = replace_char_exec(&r, '\\', '/');
    insert_string(&mut registry.roots, &normalized);
    crate::fs::file_access::invalidate_allowed_roots_cache(cache);
}

} // verus!
