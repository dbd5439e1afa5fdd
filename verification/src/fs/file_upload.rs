//! Upload conflict strategies and file-name checks.

use vstd::prelude::*;
use crate::fs::allowed_roots::{strings_view, contains_string};
use crate::text::{append_chars, chars_of, string_of};

verus! {

broadcast use vstd::string::group_string_axioms;

/// What to do when an uploaded file already exists.
#[derive(Debug, Clone, Copy, PartialEq, Eq, Structural)]
pub enum UploadConflictStrategy {
    Error,
    Overwrite,
    Skip,
}

/// The strategy named by a request (`error` when absent).
pub open spec fn strategy_of(value: Option<Seq<char>>) -> Option<UploadConflictStrategy> {
    let v = match value {
        Some(s) => s,
        None => "error"@,
    };
    if v == "error"@ {
        Some(UploadConflictStrategy::Error)
    } else if v == "overwrite"@ {
        Some(UploadConflictStrategy::Overwrite)
    } else if v == "skip"@ {
        Some(UploadConflictStrategy::Skip)
    } else {
        None
    }
}

/// The view of an optional string slice.
pub open spec fn opt_view(o: Option<&str>) -> Option<Seq<char>> {
    match o {
        Some(s) => Some(s@),
        None => None,
    }
}

/// Parses a conflict strategy; absent means `error`, an unknown name `None`.
pub fn parse_upload_conflict_strategy(value: Option<&str>) -> (r: Option<UploadConflictStrategy>)
    ensures
        r == strategy_of(opt_view(value)),
{
    let v = match value {
        Some(s) => chars_of(s),
        None => chars_of("error"),
    };
    if crate::text::chars_eq(&v, &chars_of("error")) {
        Some(UploadConflictStrategy::Error)
    } else if crate::text::chars_eq(&v, &chars_of("overwrite")) {
        Some(UploadConflictStrategy::Overwrite)
    } else if crate::text::chars_eq(&v, &chars_of("skip")) {
        Some(UploadConflictStrategy::Skip)
    } else {
        None
    }
}

/// A name that is not a plain file name: empty, `.`, `..`, or holding NUL.
pub open spec fn is_invalid_name(n: Seq<char>) -> bool {
    n.len() == 0 || n == seq!['.'] || n == seq!['.', '.'] || n.contains('\0')
}

/// A name holding a path separator.
pub open spec fn has_separator(n: Seq<char>) -> bool {
    n.contains('/') || n.contains('\\')
}

/// The error for the first bad name of `names` (checked in order), given
/// the names before it.
pub open spec fn name_error(names: Seq<Seq<char>>, i: int) -> Option<Seq<char>>
    decreases names.len() - i,
{
    if i < 0 || i >= names.len() {
        None
    } else {
        let n = names[i];
        if is_invalid_name(n) {
            Some("Invalid file name: "@ + if n.len() == 0 { "(empty)"@ } else { n })
        } else if has_separator(n) {
            Some("File names must not contain a path: "@ + n)
        } else if names.take(i).contains(n) {
            Some("Duplicate file name in upload: "@ + n)
        } else {
            name_error(names, i + 1)
        }
    }
}

/// The error for a list of upload names, or `None` when they are fine.
pub open spec fn upload_names_error(names: Seq<Seq<char>>) -> Option<Seq<char>> {
    if names.len() == 0 {
        Some("No files selected"@)
    } else {
        name_error(names, 0)
    }
}

fn message(prefix: &str, name: &Vec<char>) -> (r: String)
    ensures
        r@ == prefix@ + name@,
{
    let mut v = chars_of(prefix);
    append_chars(&mut v, name);
    string_of(v.as_slice())
}

fn contains_char(v: &Vec<char>, c: char) -> (b: bool)
    ensures
        b == v@.contains(c),
{
    let mut i: usize = 0;
    while i < v.len()
        invariant
            i <= v.len(),
            forall|j: int| 0 <= j < i ==> v@[j] != c,
        decreases v.len() - i,
    {
        if v[i] == c {
            assert(v@[i as int] == c);
            return true;
        }
        i += 1;
    }
    false
}

/// Checks the names of uploaded files: there must be some; none may be
/// empty, `.`, `..` or hold NUL, a `/` or a `\`; and no name may repeat.
/// Returns the error for the first offending name.
pub fn validate_upload_file_names(file_names: &[String]) -> (r: Option<String>)
    ensures
        match upload_names_error(strings_view(file_names@)) {
            Some(m) => r matches Some(s) && s@ == m,
            None => r is None,
        },
{
    let ghost nv = strings_view(file_names@);
    if file_names.len() == 0 {
        return Some(string_of(chars_of("No files selected").as_slice()));
    }
    let mut seen: Vec<String> = Vec::new();
    let mut i: usize = 0;
    while i < file_names.len()
        invariant
            i <= file_names.len(),
            nv == strings_view(file_names@),
            strings_view(seen@) == nv.take(i as int),
            name_error(nv, 0) == name_error(nv, i as int),
        decreases file_names.len() - i,
    {
        let n = chars_of(file_names[i].as_str());
        assert(nv[i as int] == n@);
        let dot = n.len() == 1 && n[0] == '.';
        let dotdot = n.len() == 2 && n[0] == '.' && n[1] == '.';
        assert(dot == (n@ == seq!['.'])) by {
            if n@ == seq!['.'] {
                assert(n@.len() == 1);
            }
            if dot {
                assert(n@ =~= seq!['.']);
            }
        }
        assert(dotdot == (n@ == seq!['.', '.'])) by {
            if n@ == seq!['.', '.'] {
                assert(n@.len() == 2);
            }
            if dotdot {
                assert(n@ =~= seq!['.', '.']);
            }
        }
        if n.len() == 0 || dot || dotdot || contains_char(&n, '\0') {
            if n.len() == 0 {
                return Some(message("Invalid file name: ", &chars_of("(empty)")));
            }
            return Some(message("Invalid file name: ", &n));
        }
        if contains_char(&n, '/') || contains_char(&n, '\\') {
            return Some(message("File names must not contain a path: ", &n));
        }
        if contains_string(&seen, &n) {
            return Some(message("Duplicate file name in upload: ", &n));
        }
        let ghost before = strings_view(seen@);
        seen.push(file_names[i].clone());
        assert(strings_view(seen@) =~= before.push(nv[i as int]));
        assert(nv.take(i + 1) =~= nv.take(i as int).push(nv[i as int]));
        i += 1;
    }
    None
}

/// Which upload targets already exist, and which of those may not be
/// replaced (symbolic links and anything that is not a regular file).
#[derive(Debug, Clone, Default)]
pub struct UploadTargetInspection {
    pub conflicts: Vec<String>,
    pub non_replaceable: Vec<String>,
}

/// What `lstat` said of a target: nothing (it does not exist), or whether
/// it is a symbolic link and whether it is a regular file.
pub type TargetStat = Option<(bool, bool)>;

/// The names of the targets that exist, in order.
pub open spec fn existing_names(names: Seq<Seq<char>>, stats: Seq<TargetStat>) -> Seq<Seq<char>>
    decreases names.len(),
{
    if names.len() == 0 || stats.len() == 0 {
        seq![]
    } else {
        let rest = existing_names(names.drop_last(), stats.drop_last());
        if stats.last() is Some {
            rest.push(names.last())
        } else {
            rest
        }
    }
}

/// The names of the existing targets that may not be replaced, in order.
pub open spec fn unreplaceable_names(names: Seq<Seq<char>>, stats: Seq<TargetStat>) -> Seq<
    Seq<char>,
>
    decreases names.len(),
{
    if names.len() == 0 || stats.len() == 0 {
        seq![]
    } else {
        let rest = unreplaceable_names(names.drop_last(), stats.drop_last());
        match stats.last() {
            Some((is_symlink, is_file)) => if is_symlink || !is_file {
                rest.push(names.last())
            } else {
                rest
            },
            None => rest,
        }
    }
}

/// Sorts upload targets by what `lstat` said of each (`stats[i]` for
/// `file_names[i]`).
pub fn inspection_from_stats(file_names: &Vec<String>, stats: &Vec<TargetStat>) -> (r:
    UploadTargetInspection)
    requires
        file_names.len() == stats.len(),
    ensures
        strings_view(r.conflicts@) == existing_names(strings_view(file_names@), stats@),
        strings_view(r.non_replaceable@) == unreplaceable_names(strings_view(file_names@), stats@),
{
    let ghost nv = strings_view(file_names@);
    let mut conflicts: Vec<String> = Vec::new();
    let mut non_replaceable: Vec<String> = Vec::new();
    let mut i: usize = 0;
    assert(nv.take(0) =~= Seq::<Seq<char>>::empty());
    assert(stats@.take(0) =~= Seq::<TargetStat>::empty());
    while i < file_names.len()
        invariant
            i <= file_names.len(),
            file_names.len() == stats.len(),
            nv == strings_view(file_names@),
            strings_view(conflicts@) == existing_names(nv.take(i as int), stats@.take(i as int)),
            strings_view(non_replaceable@) == unreplaceable_names(
                nv.take(i as int),
                stats@.take(i as int),
            ),
        decreases file_names.len() - i,
    {
        assert(nv.take(i + 1).drop_last() =~= nv.take(i as int));
        assert(stats@.take(i + 1).drop_last() =~= stats@.take(i as int));
        assert(nv[i as int] == file_names@[i as int]@);
        match stats[i] {
            Some((is_symlink, is_file)) => {
                let ghost c0 = strings_view(conflicts@);
                conflicts.push(file_names[i].clone());
                assert(strings_view(conflicts@) =~= c0.push(nv[i as int]));
                if is_symlink || !is_file {
                    let ghost n0 = strings_view(non_replaceable@);
                    non_replaceable.push(file_names[i].clone());
                    assert(strings_view(non_replaceable@) =~= n0.push(nv[i as int]));
                }
            },
            None => {},
        }
        i += 1;
    }
    assert(nv.take(file_names.len() as int) =~= nv);
    assert(stats@.take(file_names.len() as int) =~= stats@);
    UploadTargetInspection { conflicts, non_replaceable }
}

} // verus!
