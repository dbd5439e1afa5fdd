//! Keeping file access inside allowed roots.

use vstd::prelude::*;
use crate::fs::allowed_roots::strings_view;
use crate::fs::file_access::{is_windows_absolute, is_windows_absolute_path};
use crate::paths::{resolve, resolve_spec};
use crate::text::{chars_eq, chars_of, has_prefix, starts_with};

verus! {

broadcast use vstd::string::group_string_axioms;

/// ASCII lowercase of one character.
pub open spec fn ascii_lower_char(c: char) -> char {
    if 'A' <= c && c <= 'Z' {
        (((c as u32) + 32) as u8) as char
    } else {
        c
    }
}

/// ASCII lowercase of a string (`str::to_ascii_lowercase`).
pub open spec fn ascii_lower(s: Seq<char>) -> Seq<char> {
    s.map_values(|c: char| ascii_lower_char(c))
}

pub fn ascii_lower_exec(s: &Vec<char>) -> (r: Vec<char>)
    ensures
        r@ == ascii_lower(s@),
{
    let mut r: Vec<char> = Vec::new();
    let mut i: usize = 0;
    while i < s.len()
        invariant
            i <= s.len(),
            r@ =~= ascii_lower(s@.take(i as int)),
        decreases s.len() - i,
    {
        let c = s[i];
        let l = if 'A' <= c && c <= 'Z' {
            (((c as u32) + 32) as u8) as char
        } else {
            c
        };
        r.push(l);
        assert(ascii_lower(s@.take(i + 1)) =~= ascii_lower(s@.take(i as int)).push(l));
        i += 1;
    }
    assert(s@.take(s.len() as int) =~= s@);
    r
}

/// The form in which paths are compared: resolved, and ASCII-lowercased
/// when Windows paths are involved (their file systems ignore case).
pub open spec fn compare_key(p: Seq<char>, cwd: Seq<char>, windows: bool) -> Seq<char> {
    if windows {
        ascii_lower(resolve_spec(p, cwd))
    } else {
        resolve_spec(p, cwd)
    }
}

/// The target or one of the roots is a Windows absolute path.
pub open spec fn any_windows(target: Seq<char>, roots: Seq<Seq<char>>) -> bool {
    is_windows_absolute(target) || exists|i: int|
        0 <= i < roots.len() && is_windows_absolute(#[trigger] roots[i])
}

/// `target` is one of the roots or lies below one (after resolution; a
/// root only covers paths that continue with `/`, so `/a/b` does not cover
/// `/a/bb`).
pub open spec fn within_roots(target: Seq<char>, roots: Seq<Seq<char>>, cwd: Seq<char>) -> bool {
    let w = any_windows(target, roots);
    let t = compare_key(target, cwd, w);
    exists|i: int|
        0 <= i < roots.len() && (t == compare_key(#[trigger] roots[i], cwd, w) || starts_with(
            t,
            compare_key(roots[i], cwd, w).push('/'),
        ))
}

/// Every allowed root lies within the allowed roots.
pub proof fn law_root_within_roots(roots: Seq<Seq<char>>, i: int, cwd: Seq<char>)
    requires
        0 <= i < roots.len(),
    ensures
        within_roots(roots[i], roots, cwd),
{
    let w = any_windows(roots[i], roots);
    assert(compare_key(roots[i], cwd, w) == compare_key(roots[i], cwd, w));
}

pub fn compare_key_exec(p: &str, cwd: &str, windows: bool) -> (r: Vec<char>)
    ensures
        r@ == compare_key(p@, cwd@, windows),
{
    let resolved = resolve(p, cwd);
    let v = chars_of(resolved.as_str());
    if windows {
        ascii_lower_exec(&v)
    } else {
        v
    }
}

/// Whether `target` lies within one of `roots`, paths being resolved from
/// `cwd` (the process's working directory).
pub fn is_path_within_roots(target: &str, roots: &Vec<String>, cwd: &str) -> (b: bool)
    ensures
        b == within_roots(target@, strings_view(roots@), cwd@),
{
    let ghost rv = strings_view(roots@);
    let mut windows = is_windows_absolute_path(target);
    let mut i: usize = 0;
    while i < roots.len() && !windows
        invariant
            i <= roots.len(),
            rv == strings_view(roots@),
            windows ==> any_windows(target@, rv),
            !windows ==> !is_windows_absolute(target@) && forall|j: int|
                0 <= j < i ==> !is_windows_absolute(#[trigger] rv[j]),
        decreases roots.len() - i,
    {
        assert(rv[i as int] == roots@[i as int]@);
        if is_windows_absolute_path(roots[i].as_str()) {
            windows = true;
        }
        i += 1;
    }
    assert(windows == any_windows(target@, rv));
    let t = compare_key_exec(target, cwd, windows);
    let mut k: usize = 0;
    while k < roots.len()
        invariant
            k <= roots.len(),
            rv == strings_view(roots@),
            windows == any_windows(target@, rv),
            t@ == compare_key(target@, cwd@, windows),
            forall|j: int|
                0 <= j < k ==> !(t@ == compare_key(#[trigger] rv[j], cwd@, windows) || starts_with(
                    t@,
                    compare_key(rv[j], cwd@, windows).push('/'),
                )),
        decreases roots.len() - k,
    {
        assert(rv[k as int] == roots@[k as int]@);
        let r = compare_key_exec(roots[k].as_str(), cwd, windows);
        let mut rs = crate::text::sub_vec(&r, 0, r.len());
        rs.push('/');
        assert(rs@ =~= r@.push('/'));
        if chars_eq(&t, &r) || has_prefix(&t, &rs) {
            return true;
        }
        k += 1;
    }
    false
}

} // verus!
