//! Pure parts of git change reporting: patches for new files, git paths,
//! `--numstat` totals and line counts of untracked text files.

use vstd::prelude::*;
use crate::file::paths::join_with;
use crate::file::types::TEXT_PREVIEW_MAX_BYTES;
use crate::fs::models_config_store::{path_join, path_join_exec};
use crate::git::status::{classify, classify_git_status, porcelain_view, EntryView, GitPorcelainEntry};
use crate::git::types::{GitFileDiffResponse, GitFileStatus, GitFileStatusKind, GitStatusCode};
use crate::text::{
    append_chars, chars_eq, chars_of, decimal, decimal_exec, find_char, find_char_exec,
    find_sub, find_sub_exec, from_utf8_lossy, lemma_find_char_from, parse_u64, parse_u64_exec,
    replace_char, replace_char_exec, split_char, split_char_exec, string_of, sub_vec, utf8_lossy,
};

verus! {

broadcast use vstd::string::group_string_axioms;

/// A line without a trailing carriage return.
pub open spec fn strip_cr(l: Seq<char>) -> Seq<char> {
    if l.len() > 0 && l.last() == '\r' {
        l.drop_last()
    } else {
        l
    }
}

/// `str::lines`: the pieces between `\n`s, each `\r\n` ending counting as
/// one line ending; a final piece is dropped when empty, and keeps a bare
/// trailing `\r`.
pub open spec fn lines_of(s: Seq<char>) -> Seq<Seq<char>> {
    let parts = split_char(s, '\n');
    let ended = parts.drop_last().map_values(|l: Seq<char>| strip_cr(l));
    if parts.last().len() == 0 {
        ended
    } else {
        ended.push(parts.last())
    }
}

/// The lines of a text, as character vectors.
pub fn lines_exec(s: &Vec<char>) -> (r: Vec<Vec<char>>)
    ensures
        r@.map_values(|v: Vec<char>| v@) == lines_of(s@),
{
    let parts = split_char_exec(s, '\n');
    let ghost ps = parts@.map_values(|v: Vec<char>| v@);
    proof {
        crate::text::lemma_split_char_nonempty(s@, '\n');
    }
    let n = parts.len();
    let mut r: Vec<Vec<char>> = Vec::new();
    let mut i: usize = 0;
    while i + 1 < n
        invariant
            n == parts.len(),
            n >= 1,
            i + 1 <= n,
            ps == parts@.map_values(|v: Vec<char>| v@),
            ps == split_char(s@, '\n'),
            r@.map_values(|v: Vec<char>| v@) == ps.take(i as int).map_values(
                |l: Seq<char>| strip_cr(l),
            ),
        decreases n - i,
    {
        let p = &parts[i];
        let l = if p.len() > 0 && p[p.len() - 1] == '\r' {
            sub_vec(p, 0, p.len() - 1)
        } else {
            sub_vec(p, 0, p.len())
        };
        assert(ps[i as int] == p@);
        assert(l@ == strip_cr(p@));
        let ghost before = r@;
        r.push(l);
        assert(r@.map_values(|v: Vec<char>| v@) =~= before.map_values(|v: Vec<char>| v@).push(
            strip_cr(ps[i as int]),
        ));
        assert(ps.take(i + 1).map_values(|l: Seq<char>| strip_cr(l)) =~= ps.take(
            i as int,
        ).map_values(|l: Seq<char>| strip_cr(l)).push(strip_cr(ps[i as int])));
        i += 1;
    }
    assert(ps.take(i as int) =~= ps.drop_last());
    let last = &parts[n - 1];
    assert(ps.last() == last@);
    if last.len() > 0 {
        let ghost before = r@;
        let l2 = sub_vec(last, 0, last.len());
        assert(l2@ =~= last@);
        r.push(l2);
        assert(r@.map_values(|v: Vec<char>| v@) =~= before.map_values(|v: Vec<char>| v@).push(
            last@,
        ));
    }
    r
}

/// `s` ends with a newline.
pub open spec fn ends_with_newline(s: Seq<char>) -> bool {
    s.len() > 0 && s.last() == '\n'
}

/// The body lines of an added file: each line prefixed with `+`, joined
/// with `\n`.
pub open spec fn added_body(ls: Seq<Seq<char>>) -> Seq<char> {
    join_with(ls.map_values(|l: Seq<char>| seq!['+'] + l), '\n')
}

/// The patch that shows `content` as a new file at `git_path`.
pub open spec fn added_file_patch(git_path: Seq<char>, content: Seq<char>) -> Seq<char> {
    let ls = lines_of(content);
    let tail = if !ends_with_newline(content) && ls.len() > 0 {
        "\n\\ No newline at end of file"@
    } else {
        seq![]
    };
    "diff --git a/"@ + git_path + " b/"@ + git_path + "\nnew file mode 100644\n--- /dev/null\n+++ b/"@
        + git_path + "\n@@ -0,0 +1,"@ + decimal(ls.len()) + " @@\n"@ + added_body(ls) + tail
}

fn push_str(v: &mut Vec<char>, s: &str)
    ensures
        final(v)@ == old(v)@ + s@,
{
    let c = chars_of(s);
    append_chars(v, &c);
}

/// Builds the patch that shows `content` as a new file at `git_path`.
pub fn create_added_file_patch(git_path: &str, content: &str) -> (r: String)
    ensures
        r@ == added_file_patch(git_path@, content@),
{
    let c = chars_of(content);
    let lines = lines_exec(&c);
    let ghost ls = lines@.map_values(|v: Vec<char>| v@);
    let has_trailing = c.len() > 0 && c[c.len() - 1] == '\n';
    let mut body: Vec<char> = Vec::new();
    let mut i: usize = 0;
    let ghost plus = |l: Seq<char>| seq!['+'] + l;
    assert(ls.take(0).map_values(plus) =~= Seq::<Seq<char>>::empty());
    while i < lines.len()
        invariant
            i <= lines.len(),
            ls == lines@.map_values(|v: Vec<char>| v@),
            plus == (|l: Seq<char>| seq!['+'] + l),
            body@ == join_with(ls.take(i as int).map_values(plus), '\n'),
        decreases lines.len() - i,
    {
        let ghost prev = ls.take(i as int).map_values(plus);
        if i > 0 {
            body.push('\n');
        }
        body.push('+');
        append_chars(&mut body, &lines[i]);
        assert(ls[i as int] == lines@[i as int]@);
        assert(ls.take(i + 1).map_values(plus) =~= prev.push(plus(ls[i as int])));
        assert(ls.take(i + 1).map_values(plus).drop_last() =~= prev);
        if i == 0 {
            assert(prev.len() == 0);
        }
        i += 1;
    }
    assert(ls.take(lines.len() as int) =~= ls);
    let mut out: Vec<char> = Vec::new();
    push_str(&mut out, "diff --git a/");
    push_str(&mut out, git_path);
    push_str(&mut out, " b/");
    push_str(&mut out, git_path);
    push_str(&mut out, "\nnew file mode 100644\n--- /dev/null\n+++ b/");
    push_str(&mut out, git_path);
    push_str(&mut out, "\n@@ -0,0 +1,");
    let d = decimal_exec(lines.len());
    append_chars(&mut out, &d);
    push_str(&mut out, " @@\n");
    append_chars(&mut out, &body);
    if !has_trailing && lines.len() > 0 {
        push_str(&mut out, "\n\\ No newline at end of file");
    }
    string_of(out.as_slice())
}

/// A path with backslashes turned into slashes, as git prints paths.
pub fn to_git_path(file_path: &str) -> (r: String)
    ensures
        r@ == replace_char(file_path@, '\\', '/'),
{
    let p = chars_of(file_path);
    let q = replace_char_exec(&p, '\\', '/');
    string_of(q.as_slice())
}

/// The added and deleted line counts of one `git diff --numstat` line
/// (`added<TAB>deleted<TAB>path`); a count that is not a number (`-` for a
/// binary file) counts 0, and a line without a tab counts nothing.
pub open spec fn numstat_counts(l: Seq<char>) -> (int, int) {
    match find_char(l, '\t') {
        None => (0, 0),
        Some(i) => {
            let rest = l.skip(i + 1);
            let deleted = match find_char(rest, '\t') {
                Some(j) => rest.take(j),
                None => rest,
            };
            (
                match parse_u64(l.take(i)) {
                    Some(n) => n,
                    None => 0,
                },
                match parse_u64(deleted) {
                    Some(n) => n,
                    None => 0,
                },
            )
        },
    }
}

/// `n`, or `u64::MAX` when larger.
pub open spec fn saturate(n: int) -> int {
    if n > u64::MAX {
        u64::MAX as int
    } else {
        n
    }
}

/// The totals of the added and deleted counts of the lines, each sum
/// saturating at `u64::MAX`.
pub open spec fn numstat_sums(ls: Seq<Seq<char>>) -> (int, int)
    decreases ls.len(),
{
    if ls.len() == 0 {
        (0, 0)
    } else {
        let (a, d) = numstat_sums(ls.drop_last());
        let (x, y) = numstat_counts(ls.last());
        (saturate(a + x), saturate(d + y))
    }
}

fn numstat_line_exec(l: &Vec<char>) -> (r: (u64, u64))
    ensures
        (r.0 as int, r.1 as int) == numstat_counts(l@),
{
    proof {
        lemma_find_char_from(l@, '\t', 0);
    }
    match find_char_exec(l, '\t', 0) {
        None => (0, 0),
        Some(i) => {
            assert(i < l.len());
            let added = sub_vec(l, 0, i);
            let rest = sub_vec(l, i + 1, l.len());
            assert(added@ =~= l@.take(i as int));
            assert(rest@ =~= l@.skip(i + 1));
            proof {
                lemma_find_char_from(rest@, '\t', 0);
            }
            let deleted = match find_char_exec(&rest, '\t', 0) {
                Some(j) => {
                    let t = sub_vec(&rest, 0, j);
                    assert(t@ =~= rest@.take(j as int));
                    t
                },
                None => rest,
            };
            let a = match parse_u64_exec(&added) {
                Some(n) => n,
                None => 0,
            };
            let d = match parse_u64_exec(&deleted) {
                Some(n) => n,
                None => 0,
            };
            (a, d)
        },
    }
}

/// Totals of `git diff --numstat` output: lines added and lines deleted.
pub fn numstat_totals(output: &str) -> (r: (u64, u64))
    ensures
        (r.0 as int, r.1 as int) == numstat_sums(lines_of(output@)),
{
    let lines = lines_exec(&chars_of(output));
    let ghost ls = lines@.map_values(|v: Vec<char>| v@);
    let mut added: u64 = 0;
    let mut deleted: u64 = 0;
    assert(ls.take(0) =~= Seq::<Seq<char>>::empty());
    for i in 0..lines.len()
        invariant
            ls == lines@.map_values(|v: Vec<char>| v@),
            (added as int, deleted as int) == numstat_sums(ls.take(i as int)),
    {
        let (x, y) = numstat_line_exec(&lines[i]);
        assert(ls.take(i + 1).drop_last() =~= ls.take(i as int));
        assert(ls[i as int] == lines@[i as int]@);
        added = added.saturating_add(x);
        deleted = deleted.saturating_add(y);
    }
    assert(ls.take(lines.len() as int) =~= ls);
    (added, deleted)
}

/// The line count of an untracked file from its bytes: 0 for an empty
/// file, a file over the text preview limit or one holding a NUL byte;
/// else the number of lines of its text (invalid UTF-8 replaced).
pub open spec fn untracked_line_count(content: Seq<u8>) -> int {
    if content.len() == 0 || content.len() > TEXT_PREVIEW_MAX_BYTES || content.contains(0u8) {
        0
    } else {
        lines_of(utf8_lossy(content)).len() as int
    }
}

/// Counts the lines of an untracked text file, given its content.
pub fn count_untracked_text_lines(content: &[u8]) -> (n: u64)
    ensures
        n == untracked_line_count(content@),
{
    if content.len() == 0 || content.len() > TEXT_PREVIEW_MAX_BYTES {
        return 0;
    }
    let mut i: usize = 0;
    while i < content.len()
        invariant
            i <= content.len(),
            forall|j: int| 0 <= j < i ==> content@[j] != 0u8,
        decreases content.len() - i,
    {
        if content[i] == 0 {
            assert(content@[i as int] == 0u8);
            return 0;
        }
        i += 1;
    }
    assert(!content@.contains(0u8));
    let text = from_utf8_lossy(content);
    let lines = lines_exec(&chars_of(text.as_str()));
    assert(lines@.map_values(|v: Vec<char>| v@).len() == lines@.len());
    lines.len() as u64
}

/// `Path::join` on a POSIX host: an absolute path replaces the base.
pub open spec fn joined_path(base: Seq<char>, p: Seq<char>) -> Seq<char> {
    if p.len() > 0 && p[0] == '/' {
        p
    } else {
        path_join(base, p)
    }
}

/// The plain view of a status file: (path, kind, code, index status,
/// worktree status).
pub open spec fn file_status_view(f: GitFileStatus) -> (
    Seq<char>,
    GitFileStatusKind,
    GitStatusCode,
    Seq<char>,
    Seq<char>,
) {
    (f.file_path@, f.status, f.code, f.index_status@, f.worktree_status@)
}

/// The status file of an entry under the repository root.
pub open spec fn entry_file(root: Seq<char>, e: EntryView) -> (
    Seq<char>,
    GitFileStatusKind,
    GitStatusCode,
    Seq<char>,
    Seq<char>,
) {
    let (kind, code) = classify(e.index_status + e.worktree_status);
    (joined_path(root, e.path), kind, code, e.index_status, e.worktree_status)
}

/// The status files of the entries that lie within the session directory
/// (`within[i]` tells it of entry `i`), in order.
pub open spec fn status_files(root: Seq<char>, es: Seq<EntryView>, within: Seq<bool>) -> Seq<
    (Seq<char>, GitFileStatusKind, GitStatusCode, Seq<char>, Seq<char>),
>
    decreases es.len(),
{
    if es.len() == 0 {
        seq![]
    } else {
        let prev = status_files(root, es.drop_last(), within);
        if within[es.len() - 1] {
            prev.push(entry_file(root, es.last()))
        } else {
            prev
        }
    }
}

fn copy_string(s: &String) -> (r: String)
    ensures
        r@ == s@,
{
    string_of(chars_of(s.as_str()).as_slice())
}

/// The status files of a repository's entries: each entry's path joined to
/// the repository root and classified, keeping the entries that lie within
/// the session directory (`within[i]`, found by resolving both paths).
pub fn git_status_files(
    repository_root: &str,
    entries: &Vec<GitPorcelainEntry>,
    within: &Vec<bool>,
) -> (r: Vec<GitFileStatus>)
    requires
        within.len() == entries.len(),
    ensures
        r@.map_values(|f: GitFileStatus| file_status_view(f)) == status_files(
            repository_root@,
            porcelain_view(entries@),
            within@,
        ),
{
    let ghost ev = porcelain_view(entries@);
    let root = chars_of(repository_root);
    let mut out: Vec<GitFileStatus> = Vec::new();
    let ghost fv = |f: GitFileStatus| file_status_view(f);
    for i in 0..entries.len()
        invariant
            within.len() == entries.len(),
            ev == porcelain_view(entries@),
            root@ == repository_root@,
            fv == (|f: GitFileStatus| file_status_view(f)),
            out@.map_values(fv) == status_files(repository_root@, ev.take(i as int), within@),
    {
        let ghost prev = out@.map_values(fv);
        assert(ev.take(i + 1).drop_last() =~= ev.take(i as int));
        assert(ev.take(i + 1).last() == entries@[i as int]@);
        if within[i] {
            let e = &entries[i];
            let p = chars_of(e.path.as_str());
            let full = if p.len() > 0 && p[0] == '/' {
                p
            } else {
                path_join_exec(&root, &p)
            };
            let (status, code) = classify_git_status(e);
            let f = GitFileStatus {
                file_path: string_of(full.as_slice()),
                status,
                code,
                index_status: copy_string(&e.index_status),
                worktree_status: copy_string(&e.worktree_status),
            };
            out.push(f);
            assert(out@.map_values(fv) =~= prev.push(entry_file(repository_root@, entries@[i as int]@)));
        } else {
            assert(out@.map_values(fv) =~= prev);
        }
    }
    assert(ev.take(entries.len() as int) =~= ev);
    out
}

/// Lines added in untracked files: the counts of the files whose status
/// is untracked, summed, saturating at `u64::MAX`.
pub open spec fn untracked_sum(kinds: Seq<GitFileStatusKind>, counts: Seq<u64>) -> int
    decreases kinds.len(),
{
    if kinds.len() == 0 {
        0
    } else {
        let prev = untracked_sum(kinds.drop_last(), counts);
        if kinds.last() == GitFileStatusKind::Untracked {
            saturate(prev + counts[kinds.len() - 1])
        } else {
            prev
        }
    }
}

/// The added and deleted totals of a status: the totals of the files git knows, plus the
/// lines of the untracked files (`untracked_lines[i]` counts file `i`;
/// other files' counts are ignored), saturating at `u64::MAX`.
pub fn git_status_totals(
    files: &Vec<GitFileStatus>,
    head_totals: (u64, u64),
    untracked_lines: &Vec<u64>,
) -> (r: (u64, u64))
    requires
        untracked_lines.len() == files.len(),
    ensures
        r.0 as int == saturate(
            head_totals.0 + untracked_sum(
                files@.map_values(|f: GitFileStatus| f.status),
                untracked_lines@,
            ),
        ),
        r.1 == head_totals.1,
{
    let ghost ks = files@.map_values(|f: GitFileStatus| f.status);
    let mut sum: u64 = 0;
    assert(ks.take(0) =~= Seq::<GitFileStatusKind>::empty());
    for i in 0..files.len()
        invariant
            untracked_lines.len() == files.len(),
            ks == files@.map_values(|f: GitFileStatus| f.status),
            sum as int == untracked_sum(ks.take(i as int), untracked_lines@),
    {
        assert(ks.take(i + 1).drop_last() =~= ks.take(i as int));
        assert(ks.take(i + 1).last() == files@[i as int].status);
        if files[i].status == GitFileStatusKind::Untracked {
            sum = sum.saturating_add(untracked_lines[i]);
        }
    }
    assert(ks.take(files.len() as int) =~= ks);
    (head_totals.0.saturating_add(sum), head_totals.1)
}

/// The entry whose path is `relative_path`, if any.
pub fn find_status_entry(entries: &Vec<GitPorcelainEntry>, relative_path: &str) -> (r: Option<
    usize,
>)
    ensures
        match r {
            Some(i) => i < entries.len() && entries@[i as int].path@ == relative_path@ && forall|
                j: int,
            | 0 <= j < i ==> entries@[j].path@ != relative_path@,
            None => forall|j: int| 0 <= j < entries.len() ==> entries@[j].path@ != relative_path@,
        },
{
    let target = chars_of(relative_path);
    let mut i: usize = 0;
    while i < entries.len()
        invariant
            i <= entries.len(),
            target@ == relative_path@,
            forall|j: int| 0 <= j < i ==> entries@[j].path@ != relative_path@,
        decreases entries.len() - i,
    {
        if chars_eq(&chars_of(entries[i].path.as_str()), &target) {
            return Some(i);
        }
        i += 1;
    }
    None
}

/// A patch shows a change when it has a hunk header (`\n@@ `).
pub open spec fn has_hunk(patch: Seq<char>) -> bool {
    find_sub(patch, "\n@@ "@) is Some
}

/// The diff response made of a patch: supported, with the file's status,
/// when the patch has a hunk; unsupported otherwise.
pub open spec fn patch_response(status: GitFileStatusKind, patch: Option<Seq<char>>) -> (
    bool,
    Option<GitFileStatusKind>,
    Option<Seq<char>>,
) {
    match patch {
        Some(p) => if has_hunk(p) {
            (true, Some(status), Some(p))
        } else {
            (false, None, None)
        },
        None => (false, None, None),
    }
}

pub open spec fn diff_view(d: GitFileDiffResponse) -> (
    bool,
    Option<GitFileStatusKind>,
    Option<Seq<char>>,
) {
    (
        d.supported,
        d.status,
        match d.patch {
            Some(p) => Some(p@),
            None => None,
        },
    )
}

/// The response for a file that cannot be diffed.
pub fn unsupported_diff() -> (r: GitFileDiffResponse)
    ensures
        diff_view(r) == (false, Option::<GitFileStatusKind>::None, Option::<Seq<char>>::None),
{
    GitFileDiffResponse { supported: false, status: None, patch: None }
}

/// The diff response made of a patch (see `patch_response`).
pub fn diff_from_patch(status: GitFileStatusKind, patch: Option<String>) -> (r: GitFileDiffResponse)
    ensures
        diff_view(r) == patch_response(
            status,
            match patch {
                Some(p) => Some(p@),
                None => None,
            },
        ),
{
    match patch {
        Some(p) => {
            let pc = chars_of(p.as_str());
            if find_sub_exec(&pc, &chars_of("\n@@ "), 0).is_some() {
                GitFileDiffResponse { supported: true, status: Some(status), patch: Some(p) }
            } else {
                unsupported_diff()
            }
        },
        None => unsupported_diff(),
    }
}

/// The patch of a file that is present and readable as text: an untracked
/// file is shown as added; another uses git's patch, and when git gave none
/// only an added file is shown as added (`None`: no diff).
pub open spec fn present_file_patch(
    status: GitFileStatusKind,
    relative_path: Seq<char>,
    content: Seq<char>,
    git_patch: Option<Seq<char>>,
) -> Option<Seq<char>> {
    if status == GitFileStatusKind::Untracked {
        Some(added_file_patch(relative_path, content))
    } else {
        match git_patch {
            Some(t) => Some(t),
            None => if status == GitFileStatusKind::Added {
                Some(added_file_patch(relative_path, content))
            } else {
                None
            },
        }
    }
}

/// The diff response of a present text file, from its content and the
/// patch git gave for it (ignored for an untracked file).
pub fn present_file_diff(
    status: GitFileStatusKind,
    relative_path: &str,
    content: &str,
    git_patch: Option<String>,
) -> (r: GitFileDiffResponse)
    ensures
        diff_view(r) == patch_response(
            status,
            present_file_patch(
                status,
                relative_path@,
                content@,
                match git_patch {
                    Some(t) => Some(t@),
                    None => None,
                },
            ),
        ),
{
    let patch = if status == GitFileStatusKind::Untracked {
        Some(create_added_file_patch(relative_path, content))
    } else {
        match git_patch {
            Some(t) => Some(t),
            None => if status == GitFileStatusKind::Added {
                Some(create_added_file_patch(relative_path, content))
            } else {
                None
            },
        }
    };
    diff_from_patch(status, patch)
}

} // verus!
