//! Git worktrees: directory names for new worktrees, parsing of
//! `git worktree list --porcelain`, project resolution from
//! `git rev-parse`, and the project cache.

use vstd::prelude::*;
use crate::fs::allowed_roots::strings_view;
use crate::fs::path_security::compare_key;
use crate::fs::file_access::is_windows_absolute;
use crate::git::changes::{lines_exec, lines_of};
use crate::text::{
    append_chars, chars_eq, chars_of, has_prefix, is_ws, is_ws_exec,
    lemma_rfind_char, rfind_char, rfind_char_exec, starts_with, string_of, sub_vec, trim,
    trim_end_char, trim_end_char_exec, trim_exec,
};

verus! {

broadcast use vstd::string::group_string_axioms;

/// How a directory resolves to a project.
#[derive(Debug, Clone, PartialEq, Eq)]
pub struct ProjectInfo {
    pub project_root: String,
    pub branch: Option<String>,
    pub is_worktree: bool,
    pub is_top_level: bool,
}

/// One worktree of a repository.
#[derive(Debug, Clone, PartialEq, Eq)]
pub struct WorktreeInfo {
    pub path: String,
    pub branch: Option<String>,
    pub is_main: bool,
}

// ---------------------------------------------------------------------------
// Branch names as directory names
// ---------------------------------------------------------------------------

/// Characters that cannot stand in a directory name (and whitespace).
pub open spec fn is_special(c: char) -> bool {
    c == '/' || c == '\\' || c == ':' || c == '*' || c == '?' || c == '"' || c == '<' || c == '>'
        || c == '|' || is_ws(c)
}

/// Each run of special characters replaced by one `-`.
pub open spec fn collapse_special(s: Seq<char>) -> Seq<char>
    decreases s.len(),
{
    if s.len() == 0 {
        seq![]
    } else if is_special(s.last()) {
        if s.len() > 1 && is_special(s[s.len() - 2]) {
            collapse_special(s.drop_last())
        } else {
            collapse_special(s.drop_last()).push('-')
        }
    } else {
        collapse_special(s.drop_last()).push(s.last())
    }
}

/// `s` without leading `-`s.
pub open spec fn trim_start_dash(s: Seq<char>) -> Seq<char>
    decreases s.len(),
{
    if s.len() > 0 && s[0] == '-' {
        trim_start_dash(s.drop_first())
    } else {
        s
    }
}

/// The directory name for a branch: runs of special characters and
/// whitespace become one `-`, then leading and trailing `-`s are removed.
pub open spec fn branch_dir_name(branch: Seq<char>) -> Seq<char> {
    trim_end_char(trim_start_dash(collapse_special(branch)), '-')
}

fn is_special_exec(c: char) -> (b: bool)
    ensures
        b == is_special(c),
{
    c == '/' || c == '\\' || c == ':' || c == '*' || c == '?' || c == '"' || c == '<' || c == '>'
        || c == '|' || is_ws_exec(c)
}

/// The directory name for a branch.
pub fn sanitize_branch_for_dir(branch: &str) -> (r: String)
    ensures
        r@ == branch_dir_name(branch@),
{
    let b = chars_of(branch);
    let mut out: Vec<char> = Vec::new();
    let mut i: usize = 0;
    assert(b@.take(0) =~= Seq::<char>::empty());
    while i < b.len()
        invariant
            i <= b.len(),
            out@ == collapse_special(b@.take(i as int)),
        decreases b.len() - i,
    {
        let ghost t = b@.take(i + 1);
        assert(t.drop_last() =~= b@.take(i as int));
        assert(t.last() == b@[i as int]);
        if is_special_exec(b[i]) {
            if i > 0 && is_special_exec(b[i - 1]) {
                assert(t[t.len() - 2] == b@[i - 1]);
            } else {
                if i > 0 {
                    assert(t[t.len() - 2] == b@[i - 1]);
                }
                out.push('-');
            }
        } else {
            out.push(b[i]);
        }
        i += 1;
    }
    assert(b@.take(b.len() as int) =~= b@);
    let mut k: usize = 0;
    assert(out@.skip(0) =~= out@);
    while k < out.len() && out[k] == '-'
        invariant
            k <= out.len(),
            trim_start_dash(out@) == trim_start_dash(out@.skip(k as int)),
        decreases out.len() - k,
    {
        assert(out@.skip(k as int).drop_first() =~= out@.skip(k + 1));
        k += 1;
    }
    let rest = sub_vec(&out, k, out.len());
    assert(rest@ =~= out@.skip(k as int));
    let r = trim_end_char_exec(&rest, '-');
    string_of(r.as_slice())
}

/// The branch and directory name of a new worktree: the branch trimmed, and
/// its directory name; an empty branch or directory name is refused.
pub open spec fn worktree_names(branch: Seq<char>) -> Result<(Seq<char>, Seq<char>), Seq<char>> {
    let t = trim(branch);
    if t.len() == 0 {
        Err("Branch name is required"@)
    } else if branch_dir_name(t).len() == 0 {
        Err("Invalid branch name: "@ + branch)
    } else {
        Ok((t, branch_dir_name(t)))
    }
}

/// Checks the branch of a new worktree and derives its directory name.
pub fn worktree_branch_and_dir(branch: &str) -> (r: Result<(String, String), String>)
    ensures
        match worktree_names(branch@) {
            Ok((t, d)) => r matches Ok((a, b)) && a@ == t && b@ == d,
            Err(m) => r matches Err(e) && e@ == m,
        },
{
    let t = trim_exec(&chars_of(branch));
    if t.len() == 0 {
        return Err(string_of(chars_of("Branch name is required").as_slice()));
    }
    let ts = string_of(t.as_slice());
    let d = sanitize_branch_for_dir(ts.as_str());
    if d.as_str().is_empty() {
        let mut m = chars_of("Invalid branch name: ");
        append_chars(&mut m, &chars_of(branch));
        return Err(string_of(m.as_slice()));
    }
    Ok((ts, d))
}

/// Where a new worktree goes: directory `dir_name` in the sibling
/// directory `<repo root>-worktrees`.
pub open spec fn worktree_location(repo_root: Seq<char>, dir_name: Seq<char>) -> Seq<char> {
    crate::git::changes::joined_path(repo_root + "-worktrees"@, dir_name)
}

/// The path of a new worktree of the repository at `repo_root`.
pub fn worktree_path_for(repo_root: &str, dir_name: &str) -> (r: String)
    ensures
        r@ == worktree_location(repo_root@, dir_name@),
{
    let mut base = chars_of(repo_root);
    append_chars(&mut base, &chars_of("-worktrees"));
    let d = chars_of(dir_name);
    let full = if d.len() > 0 && d[0] == '/' {
        d
    } else {
        crate::fs::models_config_store::path_join_exec(&base, &d)
    };
    string_of(full.as_slice())
}

/// The `git` arguments that add the worktree: an existing branch is
/// checked out at `path`; a missing one is created there with `-b`.
pub open spec fn worktree_add_args(path: Seq<char>, branch: Seq<char>, branch_exists: bool) -> Seq<
    Seq<char>,
> {
    if branch_exists {
        seq!["worktree"@, "add"@, "--"@, path, branch]
    } else {
        seq!["worktree"@, "add"@, "-b"@, branch, "--"@, path]
    }
}

/// Builds the `git` arguments that add a worktree.
pub fn worktree_add_command(path: &str, branch: &str, branch_exists: bool) -> (r: Vec<String>)
    ensures
        strings_view(r@) == worktree_add_args(path@, branch@, branch_exists),
{
    let owned = |s: &str| -> (o: String)
        ensures
            o@ == s@,
        { string_of(chars_of(s).as_slice()) };
    let r = if branch_exists {
        vec![owned("worktree"), owned("add"), owned("--"), owned(path), owned(branch)]
    } else {
        vec![owned("worktree"), owned("add"), owned("-b"), owned(branch), owned("--"), owned(path)]
    };
    assert(strings_view(r@) =~= worktree_add_args(path@, branch@, branch_exists));
    r
}

// ---------------------------------------------------------------------------
// Removed worktrees
// ---------------------------------------------------------------------------

/// Where a removed worktree's repository would be: a directory
/// `<repo>-worktrees/<branch>` names repository `<repo>` and branch
/// `<branch>` (trailing slashes of the path ignored).
#[derive(Debug, Clone, PartialEq, Eq)]
pub struct RemovedWorktree {
    pub repo_root: String,
    pub branch: String,
}

/// `s` with the suffix `-worktrees` removed as often as it occurs.
pub open spec fn strip_worktrees_suffix(s: Seq<char>) -> Seq<char>
    decreases s.len(),
{
    let sfx = "-worktrees"@;
    if s.len() >= sfx.len() && s.skip(s.len() - sfx.len()) == sfx && sfx.len() > 0 {
        strip_worktrees_suffix(s.take(s.len() - sfx.len()))
    } else {
        s
    }
}

/// The repository and branch a vanished directory points at, when its
/// parent is a `<repo>-worktrees` directory with a non-empty `<repo>`.
pub open spec fn removed_worktree_of(cwd: Seq<char>) -> Option<(Seq<char>, Seq<char>)> {
    let t = trim_end_char(cwd, '/');
    match rfind_char(t, '/') {
        None => None,
        Some(j) => {
            let parent = if j == 0 {
                seq!['/']
            } else {
                t.take(j)
            };
            let sfx = "-worktrees"@;
            if parent.len() >= sfx.len() && parent.skip(parent.len() - sfx.len()) == sfx {
                let repo = strip_worktrees_suffix(parent);
                if repo.len() > 0 {
                    Some((repo, t.skip(j + 1)))
                } else {
                    None
                }
            } else {
                None
            }
        },
    }
}

fn ends_with_worktrees(v: &Vec<char>) -> (b: bool)
    ensures
        b == (v@.len() >= "-worktrees"@.len() && v@.skip(v@.len() - "-worktrees"@.len())
            == "-worktrees"@),
{
    let sfx = chars_of("-worktrees");
    if v.len() < sfx.len() {
        return false;
    }
    let tail = sub_vec(v, v.len() - sfx.len(), v.len());
    assert(tail@ =~= v@.skip(v@.len() - sfx@.len()));
    chars_eq(&tail, &sfx)
}

fn strip_worktrees_exec(v: &Vec<char>) -> (r: Vec<char>)
    ensures
        r@ == strip_worktrees_suffix(v@),
{
    proof {
        reveal_strlit("-worktrees");
    }
    let mut cur = sub_vec(v, 0, v.len());
    assert(cur@ =~= v@);
    while ends_with_worktrees(&cur)
        invariant
            strip_worktrees_suffix(v@) == strip_worktrees_suffix(cur@),
            "-worktrees"@.len() == 10,
        decreases cur.len(),
    {
        let next = sub_vec(&cur, 0, cur.len() - 10);
        cur = next;
    }
    cur
}

/// The repository and branch of a worktree directory that no longer
/// exists, judged from its path alone; the caller still checks that the
/// repository has a `.git`.
pub fn infer_removed_worktree(cwd: &str) -> (r: Option<RemovedWorktree>)
    ensures
        match removed_worktree_of(cwd@) {
            Some((repo, branch)) => r matches Some(w) && w.repo_root@ == repo && w.branch@ == branch,
            None => r is None,
        },
{
    proof {
        reveal_strlit("-worktrees");
    }
    let t = trim_end_char_exec(&chars_of(cwd), '/');
    proof {
        lemma_rfind_char(t@, '/');
    }
    let j = match rfind_char_exec(&t, '/') {
        None => return None,
        Some(j) => j,
    };
    let parent = if j == 0 {
        let mut v: Vec<char> = Vec::new();
        v.push('/');
        assert(v@ =~= seq!['/']);
        v
    } else {
        sub_vec(&t, 0, j)
    };
    if !ends_with_worktrees(&parent) {
        return None;
    }
    let repo = strip_worktrees_exec(&parent);
    if repo.len() == 0 {
        return None;
    }
    let branch = sub_vec(&t, j + 1, t.len());
    assert(branch@ =~= t@.skip(j + 1));
    Some(RemovedWorktree { repo_root: string_of(repo.as_slice()), branch: string_of(branch.as_slice()) })
}

// ---------------------------------------------------------------------------
// `git worktree list --porcelain`
// ---------------------------------------------------------------------------

/// A worktree as listed: path, branch (without `refs/heads/`) and whether
/// git marked it prunable.
#[derive(Debug, Clone, PartialEq, Eq)]
pub struct WorktreeRecord {
    pub path: String,
    pub branch: Option<String>,
    pub prunable: bool,
}

/// Plain view of a listed worktree.
pub type RecordView = (Seq<char>, Option<Seq<char>>, bool);

/// State of the listing parser: current path, branch and prunable flag,
/// and the records completed so far.
pub type ListState = (Option<Seq<char>>, Option<Seq<char>>, bool, Seq<RecordView>);

/// Completes the current worktree (if a path was seen) and resets the
/// branch and prunable flag.
pub open spec fn flush_record(st: ListState) -> ListState {
    let recs = match st.0 {
        Some(p) => st.3.push((p, st.1, st.2)),
        None => st.3,
    };
    (None, None, false, recs)
}

/// A branch reference without its `refs/heads/` prefix.
pub open spec fn short_branch(r: Seq<char>) -> Seq<char> {
    let pfx = "refs/heads/"@;
    if starts_with(r, pfx) {
        r.skip(pfx.len() as int)
    } else {
        r
    }
}

/// One line of the listing.
pub open spec fn list_step(st: ListState, line: Seq<char>) -> ListState {
    if starts_with(line, "worktree "@) {
        let f = flush_record(st);
        (Some(trim(line.skip(9))), f.1, f.2, f.3)
    } else if starts_with(line, "branch "@) {
        (st.0, Some(short_branch(trim(line.skip(7)))), st.2, st.3)
    } else if trim(line) == "prunable"@ {
        (st.0, st.1, true, st.3)
    } else if trim(line).len() == 0 {
        flush_record(st)
    } else {
        st
    }
}

/// The listing parser run over lines.
pub open spec fn list_run(lines: Seq<Seq<char>>) -> ListState
    decreases lines.len(),
{
    if lines.len() == 0 {
        (None, None, false, seq![])
    } else {
        list_step(list_run(lines.drop_last()), lines.last())
    }
}

/// The worktrees of a listing, in order.
pub open spec fn worktree_records(out: Seq<char>) -> Seq<RecordView> {
    flush_record(list_run(lines_of(out))).3
}

pub open spec fn records_view(v: Seq<WorktreeRecord>) -> Seq<RecordView> {
    v.map_values(
        |r: WorktreeRecord|
            (
                r.path@,
                match r.branch {
                    Some(b) => Some(b@),
                    None => None,
                },
                r.prunable,
            ),
    )
}

fn opt_chars_string(o: &Option<Vec<char>>) -> (r: Option<String>)
    ensures
        match o {
            Some(v) => r matches Some(s) && s@ == v@,
            None => r is None,
        },
{
    match o {
        Some(v) => Some(string_of(v.as_slice())),
        None => None,
    }
}

/// Parses the output of `git worktree list --porcelain`.
pub fn parse_worktree_list(output: &str) -> (r: Vec<WorktreeRecord>)
    ensures
        records_view(r@) == worktree_records(output@),
{
    proof {
        reveal_strlit("worktree ");
        reveal_strlit("branch ");
        reveal_strlit("refs/heads/");
    }
    let ls = lines_exec(&chars_of(output));
    let ghost lv = ls@.map_values(|v: Vec<char>| v@);
    let p_worktree = chars_of("worktree ");
    let p_branch = chars_of("branch ");
    let p_heads = chars_of("refs/heads/");
    let prunable_word = chars_of("prunable");
    let mut path: Option<Vec<char>> = None;
    let mut branch: Option<Vec<char>> = None;
    let mut prunable = false;
    let mut records: Vec<WorktreeRecord> = Vec::new();
    let mut i: usize = 0;
    assert(lv.take(0) =~= Seq::<Seq<char>>::empty());
    assert(records_view(records@) =~= Seq::<RecordView>::empty());
    while i < ls.len()
        invariant
            i <= ls.len(),
            lv == ls@.map_values(|v: Vec<char>| v@),
            lv == lines_of(output@),
            p_worktree@ == "worktree "@,
            p_branch@ == "branch "@,
            p_heads@ == "refs/heads/"@,
            prunable_word@ == "prunable"@,
            "worktree "@.len() == 9,
            "branch "@.len() == 7,
            "refs/heads/"@.len() == 11,
            ({
                let st = list_run(lv.take(i as int));
                &&& st.0 == match path {
                    Some(v) => Some(v@),
                    None => None::<Seq<char>>,
                }
                &&& st.1 == match branch {
                    Some(v) => Some(v@),
                    None => None::<Seq<char>>,
                }
                &&& st.2 == prunable
                &&& st.3 == records_view(records@)
            }),
        decreases ls.len() - i,
    {
        assert(lv.take(i + 1).drop_last() =~= lv.take(i as int));
        assert(lv[i as int] == ls@[i as int]@);
        let line = &ls[i];
        let trimmed = trim_exec(line);
        let is_worktree_line = has_prefix(line, &p_worktree);
        if is_worktree_line || (!has_prefix(line, &p_branch) && !chars_eq(&trimmed, &prunable_word)
            && trimmed.len() == 0) {
            match &path {
                Some(p) => {
                    let ghost before = records_view(records@);
                    let rec = WorktreeRecord {
                        path: string_of(p.as_slice()),
                        branch: opt_chars_string(&branch),
                        prunable,
                    };
                    records.push(rec);
                    assert(records_view(records@) =~= before.push((p@, match branch {
                        Some(v) => Some(v@),
                        None => None::<Seq<char>>,
                    }, prunable)));
                },
                None => {},
            }
            branch = None;
            prunable = false;
            if is_worktree_line {
                let rest = sub_vec(line, 9, line.len());
                assert(rest@ =~= line@.skip(9));
                path = Some(trim_exec(&rest));
            } else {
                path = None;
            }
        } else if has_prefix(line, &p_branch) {
            let rest = sub_vec(line, 7, line.len());
            assert(rest@ =~= line@.skip(7));
            let b = trim_exec(&rest);
            if has_prefix(&b, &p_heads) {
                let s = sub_vec(&b, 11, b.len());
                assert(s@ =~= b@.skip(11));
                branch = Some(s);
            } else {
                branch = Some(b);
            }
        } else if chars_eq(&trimmed, &prunable_word) {
            prunable = true;
        }
        i += 1;
    }
    assert(lv.take(ls.len() as int) =~= lv);
    match &path {
        Some(p) => {
            let ghost before = records_view(records@);
            let rec = WorktreeRecord {
                path: string_of(p.as_slice()),
                branch: opt_chars_string(&branch),
                prunable,
            };
            records.push(rec);
            assert(records_view(records@) =~= before.push((p@, match branch {
                Some(v) => Some(v@),
                None => None::<Seq<char>>,
            }, prunable)));
        },
        None => {},
    }
    records
}

/// The worktrees shown: listed records that are not prunable and whose
/// directory exists (`exists[i]` for `records[i]`); the first shown is the
/// main worktree.
pub open spec fn shown_worktrees(records: Seq<RecordView>, exists: Seq<bool>) -> Seq<
    (Seq<char>, Option<Seq<char>>, bool),
>
    decreases records.len(),
{
    if records.len() == 0 || exists.len() == 0 {
        seq![]
    } else {
        let rest = shown_worktrees(records.drop_last(), exists.drop_last());
        let r = records.last();
        if !r.2 && exists.last() {
            rest.push((r.0, r.1, rest.len() == 0))
        } else {
            rest
        }
    }
}

pub open spec fn infos_view(v: Seq<WorktreeInfo>) -> Seq<(Seq<char>, Option<Seq<char>>, bool)> {
    v.map_values(
        |w: WorktreeInfo|
            (
                w.path@,
                match w.branch {
                    Some(b) => Some(b@),
                    None => None,
                },
                w.is_main,
            ),
    )
}

/// The worktrees to show, from the listed records and whether each
/// directory exists.
pub fn select_worktrees(records: &Vec<WorktreeRecord>, exists: &Vec<bool>) -> (r: Vec<WorktreeInfo>)
    requires
        records.len() == exists.len(),
    ensures
        infos_view(r@) == shown_worktrees(records_view(records@), exists@),
{
    let ghost rv = records_view(records@);
    let mut out: Vec<WorktreeInfo> = Vec::new();
    let mut i: usize = 0;
    assert(rv.take(0) =~= Seq::<RecordView>::empty());
    assert(exists@.take(0) =~= Seq::<bool>::empty());
    assert(infos_view(out@) =~= Seq::<(Seq<char>, Option<Seq<char>>, bool)>::empty());
    while i < records.len()
        invariant
            i <= records.len(),
            records.len() == exists.len(),
            rv == records_view(records@),
            infos_view(out@) == shown_worktrees(rv.take(i as int), exists@.take(i as int)),
        decreases records.len() - i,
    {
        assert(rv.take(i + 1).drop_last() =~= rv.take(i as int));
        assert(exists@.take(i + 1).drop_last() =~= exists@.take(i as int));
        let r = &records[i];
        if !r.prunable && exists[i] {
            let ghost before = infos_view(out@);
            let branch = match &r.branch {
                Some(b) => Some(b.clone()),
                None => None,
            };
            let info = WorktreeInfo { path: r.path.clone(), branch, is_main: out.len() == 0 };
            out.push(info);
            assert(infos_view(out@) =~= before.push((rv[i as int].0, rv[i as int].1, before.len()
                == 0)));
        }
        i += 1;
    }
    assert(rv.take(records.len() as int) =~= rv);
    assert(exists@.take(records.len() as int) =~= exists@);
    out
}

// ---------------------------------------------------------------------------
// Project resolution
// ---------------------------------------------------------------------------

/// A path in the form in which paths are compared: for Windows paths,
/// backslashes turned into slashes, resolved and ASCII-lowercased; other
/// paths resolved.
pub open spec fn same_path_key(p: Seq<char>, windows: bool) -> Seq<char> {
    if windows {
        compare_key(crate::text::replace_char(p, '\\', '/'), seq!['/'], true)
    } else {
        compare_key(p, seq!['/'], false)
    }
}

/// Two paths name the same place: their keys agree, Windows rules applying
/// when either is a Windows path.
pub open spec fn same_path_spec(a: Seq<char>, b: Seq<char>) -> bool {
    let w = is_windows_absolute(a) || is_windows_absolute(b);
    same_path_key(a, w) == same_path_key(b, w)
}

fn same_path_key_exec(p: &str, windows: bool) -> (r: Vec<char>)
    ensures
        r@ == same_path_key(p@, windows),
{
    proof {
        reveal_strlit("/");
    }
    assert("/"@ =~= seq!['/']);
    if windows {
        let q = crate::text::replace_char_exec(&chars_of(p), '\\', '/');
        let qs = string_of(q.as_slice());
        crate::fs::path_security::compare_key_exec(qs.as_str(), "/", true)
    } else {
        crate::fs::path_security::compare_key_exec(p, "/", false)
    }
}

/// Whether two paths name the same place.
pub fn same_path(a: &str, b: &str) -> (r: bool)
    ensures
        r == same_path_spec(a@, b@),
{
    let w = crate::fs::file_access::is_windows_absolute_path(a)
        || crate::fs::file_access::is_windows_absolute_path(b);
    let ka = same_path_key_exec(a, w);
    let kb = same_path_key_exec(b, w);
    chars_eq(&ka, &kb)
}

/// Which directory a project's root is: the session directory itself, or a
/// directory that the caller resolves through symbolic links.
#[derive(Debug, Clone, PartialEq, Eq)]
pub enum ProjectRoot {
    Cwd,
    Resolve(String),
}

/// What `git rev-parse` says of a directory, before symbolic links are
/// resolved.
#[derive(Debug, Clone, PartialEq, Eq)]
pub struct ProjectPlan {
    pub root: ProjectRoot,
    pub branch: Option<String>,
    pub is_worktree: bool,
    pub is_top_level: bool,
}

/// The parent directory of a path (text before its last `/`; `/` for a
/// top-level entry).
pub open spec fn parent_dir(p: Seq<char>) -> Option<Seq<char>> {
    let t = trim_end_char(p, '/');
    match rfind_char(t, '/') {
        None => None,
        Some(j) => Some(if j == 0 {
            seq!['/']
        } else {
            t.take(j)
        }),
    }
}

/// The plan for a directory from `git rev-parse --git-common-dir --git-dir
/// --show-toplevel --abbrev-ref HEAD` output: with fewer than four lines,
/// the directory is its own project; else it is at the top level when the
/// top level is the directory (`real_cwd`), a worktree when in addition the
/// git directory is not the common one (its root is then the common
/// directory's parent), and the branch is the reference unless `HEAD`.
pub open spec fn project_plan(output: Seq<char>, real_cwd: Seq<char>) -> Option<
    (Option<Seq<char>>, Option<Seq<char>>, bool, bool),
> {
    let ls = lines_of(output);
    if ls.len() < 4 {
        None
    } else {
        let common = trim(ls[0]);
        let git_dir = trim(ls[1]);
        let top = trim(ls[2]);
        let r = trim(ls[3]);
        let is_top = same_path_spec(top, real_cwd);
        let is_wt = !same_path_spec(git_dir, common) && is_top;
        let root = if is_wt {
            parent_dir(common)
        } else if is_top {
            Some(top)
        } else {
            None
        };
        let branch = if r != "HEAD"@ && r.len() > 0 {
            Some(r)
        } else {
            None
        };
        Some((root, branch, is_wt, is_top))
    }
}

/// Plans the project of a directory from `git rev-parse` output (`None`
/// when the output has fewer than four lines: the directory is then its own
/// project).
pub fn plan_project(output: &str, real_cwd: &str) -> (r: Option<ProjectPlan>)
    ensures
        match project_plan(output@, real_cwd@) {
            None => r is None,
            Some((root, branch, is_wt, is_top)) => r matches Some(p) && p.is_worktree == is_wt
                && p.is_top_level == is_top && match root {
                Some(x) => p.root matches ProjectRoot::Resolve(s) && s@ == x,
                None => p.root == ProjectRoot::Cwd,
            } && match branch {
                Some(b) => p.branch matches Some(s) && s@ == b,
                None => p.branch is None,
            },
        },
{
    let ls = lines_exec(&chars_of(output));
    let ghost lv = ls@.map_values(|v: Vec<char>| v@);
    if ls.len() < 4 {
        return None;
    }
    assert(lv[0] == ls@[0]@ && lv[1] == ls@[1]@ && lv[2] == ls@[2]@ && lv[3] == ls@[3]@);
    let common = string_of(trim_exec(&ls[0]).as_slice());
    let git_dir = string_of(trim_exec(&ls[1]).as_slice());
    let top = string_of(trim_exec(&ls[2]).as_slice());
    let r = trim_exec(&ls[3]);
    let is_top = same_path(top.as_str(), real_cwd);
    let is_wt = !same_path(git_dir.as_str(), common.as_str()) && is_top;
    let root = if is_wt {
        let t = trim_end_char_exec(&chars_of(common.as_str()), '/');
        proof {
            lemma_rfind_char(t@, '/');
        }
        match rfind_char_exec(&t, '/') {
            None => ProjectRoot::Cwd,
            Some(j) => {
                if j == 0 {
                    let mut v: Vec<char> = Vec::new();
                    v.push('/');
                    assert(v@ =~= seq!['/']);
                    ProjectRoot::Resolve(string_of(v.as_slice()))
                } else {
                    ProjectRoot::Resolve(string_of(sub_vec(&t, 0, j).as_slice()))
                }
            },
        }
    } else if is_top {
        ProjectRoot::Resolve(top)
    } else {
        ProjectRoot::Cwd
    };
    let branch = if !chars_eq(&r, &chars_of("HEAD")) && r.len() > 0 {
        Some(string_of(r.as_slice()))
    } else {
        None
    };
    Some(ProjectPlan { root, branch, is_worktree: is_wt, is_top_level: is_top })
}

/// The project of a directory that is not a repository (or whose
/// resolution failed): the directory itself, no branch.
pub fn plain_project(cwd: &str) -> (p: ProjectInfo)
    ensures
        p.project_root@ == cwd@,
        p.branch is None,
        !p.is_worktree,
        !p.is_top_level,
{
    ProjectInfo {
        project_root: string_of(chars_of(cwd).as_slice()),
        branch: None,
        is_worktree: false,
        is_top_level: false,
    }
}

// ---------------------------------------------------------------------------
// Removing worktrees
// ---------------------------------------------------------------------------

/// The worktree to remove: the first listed whose path is the same place as
/// `path`; refused when there is none or it is the main worktree.
pub open spec fn removal_target(worktrees: Seq<(Seq<char>, Option<Seq<char>>, bool)>, path: Seq<char>) -> Result<
    Seq<char>,
    Seq<char>,
>
    decreases worktrees.len(),
{
    if worktrees.len() == 0 {
        Err("Not a worktree of this repository: "@ + path)
    } else if same_path_spec(worktrees[0].0, path) {
        if worktrees[0].2 {
            Err("Cannot remove the main worktree"@)
        } else {
            Ok(worktrees[0].0)
        }
    } else {
        removal_target(worktrees.drop_first(), path)
    }
}

/// Picks the worktree to remove (its path as git lists it).
pub fn worktree_to_remove(worktrees: &Vec<WorktreeInfo>, worktree_path: &str) -> (r: Result<
    String,
    String,
>)
    ensures
        match removal_target(infos_view(worktrees@), worktree_path@) {
            Ok(p) => r matches Ok(s) && s@ == p,
            Err(m) => r matches Err(e) && e@ == m,
        },
{
    let ghost wv = infos_view(worktrees@);
    let mut i: usize = 0;
    assert(wv.skip(0) =~= wv);
    while i < worktrees.len()
        invariant
            i <= worktrees.len(),
            wv == infos_view(worktrees@),
            removal_target(wv, worktree_path@) == removal_target(wv.skip(i as int), worktree_path@),
        decreases worktrees.len() - i,
    {
        assert(wv.skip(i as int)[0] == wv[i as int]);
        if same_path(worktrees[i].path.as_str(), worktree_path) {
            if worktrees[i].is_main {
                return Err(string_of(chars_of("Cannot remove the main worktree").as_slice()));
            }
            return Ok(worktrees[i].path.clone());
        }
        assert(wv.skip(i as int).drop_first() =~= wv.skip(i + 1));
        i += 1;
    }
    let mut m = chars_of("Not a worktree of this repository: ");
    append_chars(&mut m, &chars_of(worktree_path));
    Err(string_of(m.as_slice()))
}

// ---------------------------------------------------------------------------
// Project cache
// ---------------------------------------------------------------------------

/// How long a resolved project is cached, in milliseconds.
pub const PROJECT_CACHE_TTL_MS: u64 = 60_000;

/// Plain view of a project: (root, branch, is worktree, is top level).
pub type ProjectView = (Seq<char>, Option<Seq<char>>, bool, bool);

/// The plain view of a project.
pub open spec fn project_view(p: ProjectInfo) -> ProjectView {
    (
        p.project_root@,
        match p.branch {
            Some(b) => Some(b@),
            None => None,
        },
        p.is_worktree,
        p.is_top_level,
    )
}

fn copy_project(p: &ProjectInfo) -> (r: ProjectInfo)
    ensures
        project_view(r) == project_view(*p),
{
    ProjectInfo {
        project_root: p.project_root.clone(),
        branch: match &p.branch {
            Some(b) => Some(b.clone()),
            None => None,
        },
        is_worktree: p.is_worktree,
        is_top_level: p.is_top_level,
    }
}

/// Resolved projects by directory, each with its expiry time.
pub struct ProjectCache {
    entries: Vec<(String, ProjectInfo, u64)>,
}

impl ProjectCache {
    /// The cached entries: directory, project and expiry.
    pub closed spec fn entries_view(&self) -> Seq<(Seq<char>, ProjectView, u64)> {
        self.entries@.map_values(|e: (String, ProjectInfo, u64)| (e.0@, project_view(e.1), e.2))
    }

    /// An empty cache.
    pub fn new() -> (c: ProjectCache)
        ensures
            c.entries_view().len() == 0,
    {
        ProjectCache { entries: Vec::new() }
    }

    /// The cached project of `cwd` when it has not expired at `now_ms` (the
    /// latest entry for `cwd` counts).
    pub fn get(&self, cwd: &str, now_ms: u64) -> (r: Option<ProjectInfo>)
        ensures
            match latest_entry(self.entries_view(), cwd@) {
                Some((info, expires)) => if expires > now_ms {
                    r matches Some(x) && project_view(x) == info
                } else {
                    r is None
                },
                None => r is None,
            },
    {
        let ghost ev = self.entries_view();
        let c = chars_of(cwd);
        let mut i: usize = self.entries.len();
        assert(ev.take(i as int) =~= ev);
        while i > 0
            invariant
                i <= self.entries.len(),
                ev == self.entries_view(),
                c@ == cwd@,
                latest_entry(ev, cwd@) == latest_entry(ev.take(i as int), cwd@),
            decreases i,
        {
            assert(ev.take(i as int).drop_last() =~= ev.take(i - 1));
            assert(ev.take(i as int).last() == ev[i - 1]);
            assert(ev[i - 1] == (self.entries@[i - 1].0@, project_view(self.entries@[i - 1].1), self.entries@[i - 1].2));
            if chars_eq(&chars_of(self.entries[i - 1].0.as_str()), &c) {
                let e = &self.entries[i - 1];
                assert(ev.take(i as int).last().0 == cwd@);
                if e.2 > now_ms {
                    return Some(copy_project(&e.1));
                }
                return None;
            }
            i -= 1;
        }
        None
    }

    /// Caches the project of `cwd` for [`PROJECT_CACHE_TTL_MS`] from `now_ms`.
    pub fn insert(&mut self, cwd: &str, info: ProjectInfo, now_ms: u64)
        requires
            now_ms <= u64::MAX - PROJECT_CACHE_TTL_MS,
        ensures
            final(self).entries_view() == old(self).entries_view().push(
                (cwd@, project_view(info), (now_ms + PROJECT_CACHE_TTL_MS) as u64),
            ),
    {
        let ghost before = self.entries_view();
        let ghost iv = project_view(info);
        self.entries.push((string_of(chars_of(cwd).as_slice()), info, now_ms + PROJECT_CACHE_TTL_MS));
        assert(self.entries_view() =~= before.push((cwd@, iv, (now_ms + PROJECT_CACHE_TTL_MS) as u64)));
    }
}

/// The latest cached entry of a directory.
pub open spec fn latest_entry(entries: Seq<(Seq<char>, ProjectView, u64)>, cwd: Seq<char>) -> Option<
    (ProjectView, u64),
>
    decreases entries.len(),
{
    if entries.len() == 0 {
        None
    } else if entries.last().0 == cwd {
        Some((entries.last().1, entries.last().2))
    } else {
        latest_entry(entries.drop_last(), cwd)
    }
}

/// A project cached for a directory is what the cache answers for that
/// directory until it expires, and the answers for every other directory
/// stay as they were.
pub proof fn law_project_cache_read_after_write(
    entries: Seq<(Seq<char>, ProjectView, u64)>,
    cwd: Seq<char>,
    info: ProjectView,
    expires: u64,
    other: Seq<char>,
)
    ensures
        latest_entry(entries.push((cwd, info, expires)), cwd) == Some((info, expires)),
        other != cwd ==> latest_entry(entries.push((cwd, info, expires)), other) == latest_entry(
            entries,
            other,
        ),
{
    assert(entries.push((cwd, info, expires)).drop_last() =~= entries);
}

/// Forgets every cached project.
pub fn invalidate_project_cache(cache: &mut ProjectCache)
    ensures
        final(cache).entries_view().len() == 0,
{
    cache.entries = Vec::new();
}


/// A `branch refs/heads/<b>` line of the listing records exactly `<b>`:
/// only the `refs/heads/` prefix goes, whatever `/` the branch name holds;
/// another reference is recorded as it stands.
pub proof fn law_listed_branch(st: ListState, line: Seq<char>)
    requires
        starts_with(line, "branch "@),
    ensures
        ({
            let r = trim(line.skip(7));
            let b = list_step(st, line).1;
            &&& b is Some
            &&& starts_with(r, "refs/heads/"@) ==> "refs/heads/"@ + b->0 == r
            &&& !starts_with(r, "refs/heads/"@) ==> b->0 == r
        }),
{
    reveal_strlit("branch ");
    reveal_strlit("worktree ");
    reveal_strlit("refs/heads/");
    assert(line.take(7)[0] == line[0]);
    assert("branch "@[0] == 'b');
    assert(line[0] == 'b');
    assert(!starts_with(line, "worktree "@)) by {
        if starts_with(line, "worktree "@) {
            assert(line.take(9)[0] == line[0]);
            assert("worktree "@[0] == 'w');
        }
    }
    let r = trim(line.skip(7));
    if starts_with(r, "refs/heads/"@) {
        assert("refs/heads/"@ + r.skip(11) =~= r);
    }
}

} // verus!
