//! Pi Web release checks: stable version comparison and release URLs.
//!
//! A stable version is `MAJOR.MINOR.PATCH`, three runs of ASCII digits whose
//! values are safe integers (at most 2^53 - 1, as JavaScript numbers).

use vstd::prelude::*;
use crate::text::{
    append_chars, chars_of, is_safe_digits, digits_value, safe_digits_value, split_char,
    split_char_exec, string_of,
};

verus! {

broadcast use vstd::string::group_string_axioms;

/// The parts of a stable version, or `None` when `v` is not one.
pub open spec fn parse_stable(v: Seq<char>) -> Option<(int, int, int)> {
    let parts = split_char(v, '.');
    if parts.len() == 3 && is_safe_digits(parts[0]) && is_safe_digits(parts[1]) && is_safe_digits(
        parts[2],
    ) {
        Some((digits_value(parts[0]), digits_value(parts[1]), digits_value(parts[2])))
    } else {
        None
    }
}

/// `candidate` and `current` are stable versions and `candidate` is greater
/// (major, then minor, then patch).
pub open spec fn newer_stable(candidate: Seq<char>, current: Seq<char>) -> bool {
    match (parse_stable(candidate), parse_stable(current)) {
        (Some(a), Some(b)) => a.0 > b.0 || (a.0 == b.0 && (a.1 > b.1 || (a.1 == b.1 && a.2 > b.2))),
        _ => false,
    }
}

/// Prefix of Pi Web release pages.
pub open spec fn release_url_prefix() -> Seq<char> {
    "https://github.com/agegr/pi-web/releases/tag/v"@
}

/// Parses a stable version into its three parts.
fn parse_stable_version(version: &str) -> (r: Option<[u64; 3]>)
    ensures
        match parse_stable(version@) {
            Some(p) => r matches Some(a) && a[0] == p.0 && a[1] == p.1 && a[2] == p.2,
            None => r is None,
        },
{
    let v = chars_of(version);
    let parts = split_char_exec(&v, '.');
    assert(parts@.map_values(|x: Vec<char>| x@) == split_char(version@, '.'));
    if parts.len() != 3 {
        return None;
    }
    assert(parts@[0]@ == split_char(version@, '.')[0]);
    assert(parts@[1]@ == split_char(version@, '.')[1]);
    assert(parts@[2]@ == split_char(version@, '.')[2]);
    let a = match safe_digits_value(&parts[0]) {
        Some(x) => x,
        None => return None,
    };
    let b = match safe_digits_value(&parts[1]) {
        Some(x) => x,
        None => return None,
    };
    let c = match safe_digits_value(&parts[2]) {
        Some(x) => x,
        None => return None,
    };
    Some([a, b, c])
}

/// Whether `candidate` is a newer stable version than `current`.
///
/// A version that is not stable (a pre-release, or not a version at all)
/// is never newer, and neither is an equal version.
pub fn is_newer_stable_version(candidate: &str, current: &str) -> (r: bool)
    ensures
        r == newer_stable(candidate@, current@),
{
    let a = match parse_stable_version(candidate) {
        Some(p) => p,
        None => return false,
    };
    let b = match parse_stable_version(current) {
        Some(p) => p,
        None => return false,
    };
    let ghost pa = parse_stable(candidate@)->0;
    let ghost pb = parse_stable(current@)->0;
    let mut index: usize = 0;
    while index < 3
        invariant
            parse_stable(candidate@) == Some(pa),
            parse_stable(current@) == Some(pb),
            a[0] == pa.0 && a[1] == pa.1 && a[2] == pa.2,
            b[0] == pb.0 && b[1] == pb.1 && b[2] == pb.2,
            index <= 3,
            forall|j: int| 0 <= j < index ==> a[j] == b[j],
        decreases 3 - index,
    {
        if a[index] != b[index] {
            return a[index] > b[index];
        }
        index += 1;
    }
    false
}

/// The release page of a stable version (the version as written, after `v`).
pub fn get_pi_web_release_url(version: &str) -> (r: Option<String>)
    ensures
        match r {
            Some(u) => parse_stable(version@) is Some && u@ == release_url_prefix() + version@,
            None => parse_stable(version@) is None,
        },
{
    if parse_stable_version(version).is_none() {
        return None;
    }
    let mut u = chars_of("https://github.com/agegr/pi-web/releases/tag/v");
    let v = chars_of(version);
    append_chars(&mut u, &v);
    Some(string_of(u.as_slice()))
}

/// No version is newer than itself.
pub proof fn law_newer_irreflexive(v: Seq<char>)
    ensures
        !newer_stable(v, v),
{
}

/// Of two versions at most one is newer than the other.
pub proof fn law_newer_asymmetric(a: Seq<char>, b: Seq<char>)
    ensures
        !(newer_stable(a, b) && newer_stable(b, a)),
{
}

/// "Newer" is transitive.
pub proof fn law_newer_transitive(a: Seq<char>, b: Seq<char>, c: Seq<char>)
    requires
        newer_stable(a, b),
        newer_stable(b, c),
    ensures
        newer_stable(a, c),
{
}

/// Two stable versions are either equal in all three parts, or one of them
/// is newer than the other.
pub proof fn law_newer_total_on_stable(a: Seq<char>, b: Seq<char>)
    requires
        parse_stable(a) is Some,
        parse_stable(b) is Some,
    ensures
        newer_stable(a, b) || newer_stable(b, a) || parse_stable(a) == parse_stable(b),
{
}

} // verus!
