//! Bash output files: which paths may be read back, and read results.

use vstd::prelude::*;
use crate::paths::{path_of_segments, path_of_segments_exec, resolved_segments, resolve_segments, segs_view};
use crate::text::{chars_of, has_prefix, starts_with, string_of, sub_vec};

verus! {

broadcast use vstd::string::group_string_axioms;

/// Largest bash output returned inline, in bytes.
pub const MAX_INLINE_BASH_OUTPUT_BYTES: usize = 5 * 1024 * 1024;

/// Characters allowed in the variable part of a bash output file name.
pub open spec fn is_name_char(c: char) -> bool {
    ('0' <= c && c <= '9') || ('a' <= c && c <= 'z') || ('A' <= c && c <= 'Z') || c == '_' || c
        == '-'
}

/// `pi-bash-<stem>.log` with a non-empty stem of ASCII letters, digits,
/// `_` and `-`.
pub open spec fn is_bash_output_name(n: Seq<char>) -> bool {
    let p = "pi-bash-"@;
    let s = ".log"@;
    &&& starts_with(n, p)
    &&& n.len() >= p.len() + s.len()
    &&& n.skip(n.len() - s.len()) == s
    &&& n.len() > p.len() + s.len()
    &&& forall|i: int| p.len() <= i < n.len() - s.len() ==> is_name_char(#[trigger] n[i])
}

/// Whether a file name is that of a bash output file.
pub fn is_valid_bash_output_name(name: &str) -> (b: bool)
    ensures
        b == is_bash_output_name(name@),
{
    let n = chars_of(name);
    let p = chars_of("pi-bash-");
    let s = chars_of(".log");
    if !has_prefix(&n, &p) {
        return false;
    }
    if n.len() - p.len() < s.len() {
        return false;
    }
    let tail = sub_vec(&n, n.len() - s.len(), n.len());
    assert(tail@ =~= n@.skip(n@.len() - s@.len()));
    if !crate::text::chars_eq(&tail, &s) {
        return false;
    }
    if n.len() - p.len() == s.len() {
        return false;
    }
    let end = n.len() - s.len();
    let mut i: usize = p.len();
    while i < end
        invariant
            n@ == name@,
            p@ == "pi-bash-"@,
            s@ == ".log"@,
            end == n.len() - s.len(),
            p.len() <= i <= end,
            forall|k: int| p@.len() <= k < i ==> is_name_char(#[trigger] n@[k]),
        decreases end - i,
    {
        let c = n[i];
        if !(('0' <= c && c <= '9') || ('a' <= c && c <= 'z') || ('A' <= c && c <= 'Z') || c == '_'
            || c == '-') {
            return false;
        }
        i += 1;
    }
    true
}

/// The resolved path of a bash output file, when `file_path` (resolved from
/// `cwd`) is a bash output file directly inside `temp_root` (also resolved).
pub open spec fn bash_output_path(file_path: Seq<char>, temp_root: Seq<char>, cwd: Seq<char>) -> Option<
    Seq<char>,
> {
    let segs = resolved_segments(file_path, cwd);
    if segs.len() == 0 {
        None
    } else if path_of_segments(segs.drop_last()) != path_of_segments(resolved_segments(temp_root, cwd)) {
        None
    } else if !is_bash_output_name(segs.last()) {
        None
    } else {
        Some(path_of_segments(segs))
    }
}

/// Checks that `file_path` names a bash output file (`pi-bash-*.log`)
/// directly inside `temp_root`; both are resolved from `cwd` first.
pub fn resolve_bash_output_path(file_path: &str, temp_root: &str, cwd: &str) -> (r: Option<String>)
    ensures
        match bash_output_path(file_path@, temp_root@, cwd@) {
            Some(p) => r matches Some(s) && s@ == p,
            None => r is None,
        },
{
    let segs = resolve_segments(file_path, cwd);
    if segs.len() == 0 {
        return None;
    }
    let ghost sv = segs_view(segs@);
    let parent = path_of_segments_exec(&segs, segs.len() - 1);
    assert(sv.take(sv.len() - 1) =~= sv.drop_last());
    let root_segs = resolve_segments(temp_root, cwd);
    let root = path_of_segments_exec(&root_segs, root_segs.len());
    assert(segs_view(root_segs@).take(root_segs.len() as int) =~= segs_view(root_segs@));
    if !crate::text::chars_eq(&parent, &root) {
        return None;
    }
    let base = string_of(segs[segs.len() - 1].as_slice());
    assert(sv.last() == segs@[segs.len() - 1]@);
    if !is_valid_bash_output_name(base.as_str()) {
        return None;
    }
    let full = path_of_segments_exec(&segs, segs.len());
    assert(sv.take(sv.len() as int) =~= sv);
    Some(string_of(full.as_slice()))
}

/// Result of reading a bash output file.
#[derive(Debug)]
pub enum ReadResult {
    TooLarge { size: usize },
    Content { content: String, size: usize },
}

/// The limit used when the caller gives none.
pub fn effective_read_limit(max_bytes: Option<usize>) -> (r: usize)
    ensures
        r == match max_bytes {
            Some(m) => m,
            None => MAX_INLINE_BASH_OUTPUT_BYTES,
        },
{
    match max_bytes {
        Some(m) => m,
        None => MAX_INLINE_BASH_OUTPUT_BYTES,
    }
}

/// Whether a file of `size` bytes is refused as too large under `max`.
pub fn exceeds_read_limit(size: usize, max: usize) -> (b: bool)
    ensures
        b == (size > max),
{
    size > max
}

} // verus!
