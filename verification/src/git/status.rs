//! Parsing of `git status --porcelain=v1 -z` output and status classes.

use vstd::prelude::*;
use crate::git::types::{GitFileStatusKind, GitStatusCode};
use crate::text::{chars_of, split_char, split_char_exec, string_of, sub_vec};

verus! {

broadcast use vstd::string::group_string_axioms;

/// One record of porcelain output.
#[derive(Debug, Clone, PartialEq, Eq)]
pub struct GitPorcelainEntry {
    pub path: String,
    pub original_path: Option<String>,
    pub index_status: String,
    pub worktree_status: String,
}

/// Plain view of a porcelain entry: (path, original path, index status,
/// worktree status).
pub struct EntryView {
    pub path: Seq<char>,
    pub original_path: Option<Seq<char>>,
    pub index_status: Seq<char>,
    pub worktree_status: Seq<char>,
}

impl View for GitPorcelainEntry {
    type V = EntryView;

    open spec fn view(&self) -> EntryView {
        EntryView {
            path: self.path@,
            original_path: match self.original_path {
                Some(s) => Some(s@),
                None => None,
            },
            index_status: self.index_status@,
            worktree_status: self.worktree_status@,
        }
    }
}

pub open spec fn porcelain_view(v: Seq<GitPorcelainEntry>) -> Seq<EntryView> {
    v.map_values(|e: GitPorcelainEntry| e@)
}

/// A record `XY path`: two ASCII status letters, a space and at least one
/// more character.
pub open spec fn is_status_record(r: Seq<char>) -> bool {
    r.len() >= 4 && (r[0] as u32) < 0x80 && (r[1] as u32) < 0x80 && r[2] == ' '
}

/// Renames and copies are followed by a record with the original path.
pub open spec fn uses_rename(x: char, y: char) -> bool {
    x == 'R' || x == 'C' || y == 'R' || y == 'C'
}

/// The entry of a status record, before its original path is known.
pub open spec fn record_entry(r: Seq<char>, original: Option<Seq<char>>) -> EntryView {
    EntryView {
        path: r.skip(3),
        original_path: original,
        index_status: seq![r[0]],
        worktree_status: seq![r[1]],
    }
}

/// Entries of a list of NUL-separated records: records that are not status
/// records are skipped; a rename or copy takes the next record (if any) as
/// its original path.
pub open spec fn parse_records(rs: Seq<Seq<char>>) -> Seq<EntryView>
    decreases rs.len(),
{
    if rs.len() == 0 {
        seq![]
    } else {
        let r = rs[0];
        if !is_status_record(r) {
            parse_records(rs.drop_first())
        } else if uses_rename(r[0], r[1]) && rs.len() > 1 {
            seq![record_entry(r, Some(rs[1]))] + parse_records(rs.skip(2))
        } else {
            seq![record_entry(r, None)] + parse_records(rs.drop_first())
        }
    }
}

/// Whether a status pair is a rename or copy.
fn uses_rename_path(index_status: char, worktree_status: char) -> (b: bool)
    ensures
        b == uses_rename(index_status, worktree_status),
{
    index_status == 'R' || index_status == 'C' || worktree_status == 'R' || worktree_status == 'C'
}

fn is_status_record_exec(r: &Vec<char>) -> (b: bool)
    ensures
        b == is_status_record(r@),
{
    r.len() >= 4 && (r[0] as u32) < 0x80 && (r[1] as u32) < 0x80 && r[2] == ' '
}

fn one_char_string(c: char) -> (s: String)
    ensures
        s@ == seq![c],
{
    let mut v: Vec<char> = Vec::new();
    v.push(c);
    string_of(v.as_slice())
}

/// Parses the NUL-separated output of `git status --porcelain=v1 -z`.
pub fn parse_git_porcelain_v1(output: &str) -> (r: Vec<GitPorcelainEntry>)
    ensures
        porcelain_view(r@) == parse_records(split_char(output@, '\0')),
{
    let o = chars_of(output);
    let records = split_char_exec(&o, '\0');
    let ghost rs = records@.map_values(|v: Vec<char>| v@);
    let mut entries: Vec<GitPorcelainEntry> = Vec::new();
    let mut i: usize = 0;
    assert(rs.skip(0) =~= rs);
    while i < records.len()
        invariant
            i <= records.len(),
            rs == records@.map_values(|v: Vec<char>| v@),
            porcelain_view(entries@) + parse_records(rs.skip(i as int)) == parse_records(rs),
        decreases records.len() - i,
    {
        let ghost rest = rs.skip(i as int);
        assert(rest[0] == records@[i as int]@);
        let record = &records[i];
        i += 1;
        if !is_status_record_exec(record) {
            assert(rest.drop_first() =~= rs.skip(i as int));
            continue;
        }
        let x = record[0];
        let y = record[1];
        let mut original_path: Option<String> = None;
        if uses_rename_path(x, y) && i < records.len() {
            original_path = Some(string_of(records[i].as_slice()));
            assert(rest[1] == records@[i as int]@);
            assert(rest.skip(2) =~= rs.skip(i + 1));
            i += 1;
        } else {
            assert(rest.drop_first() =~= rs.skip(i as int));
        }
        let path = sub_vec(record, 3, record.len());
        let entry = GitPorcelainEntry {
            path: string_of(path.as_slice()),
            original_path,
            index_status: one_char_string(x),
            worktree_status: one_char_string(y),
        };
        let ghost before = entries@;
        let ghost ev = entry@;
        assert(ev.path =~= record@.skip(3));
        entries.push(entry);
        assert(porcelain_view(entries@) =~= porcelain_view(before).push(ev));
        assert(porcelain_view(entries@) + parse_records(rs.skip(i as int)) =~= porcelain_view(before)
            + (seq![ev] + parse_records(rs.skip(i as int))));
    }
    entries
}

/// Status pairs that mean a merge conflict.
pub open spec fn is_conflict_pair(p: Seq<char>) -> bool {
    p == seq!['D', 'D'] || p == seq!['A', 'U'] || p == seq!['U', 'D'] || p == seq!['U', 'A']
        || p == seq!['D', 'U'] || p == seq!['A', 'A'] || p == seq!['U', 'U']
}

/// Status class of an entry, from its index and worktree statuses joined
/// into one pair: `??` is untracked; a conflict pair or any `U` is a
/// conflict; then `D` deleted, `R`/`C` renamed, `A` added, else modified.
pub open spec fn classify(pair: Seq<char>) -> (GitFileStatusKind, GitStatusCode) {
    if pair == seq!['?', '?'] {
        (GitFileStatusKind::Untracked, GitStatusCode::Untracked)
    } else if is_conflict_pair(pair) || pair.contains('U') {
        (GitFileStatusKind::Conflict, GitStatusCode::Conflict)
    } else if pair.contains('D') {
        (GitFileStatusKind::Deleted, GitStatusCode::Deleted)
    } else if pair.contains('R') || pair.contains('C') {
        (GitFileStatusKind::Renamed, GitStatusCode::Renamed)
    } else if pair.contains('A') {
        (GitFileStatusKind::Added, GitStatusCode::Added)
    } else {
        (GitFileStatusKind::Modified, GitStatusCode::Modified)
    }
}

fn contains_char(v: &Vec<char>, c: char) -> (b: bool)
    ensures
        b == v@.contains(c),
{
    let mut i: usize = 0;
    while i < v.len()
        invariant
            i <= v.len(),
            forall|j: int| 0 <= j < i ==> v@[j] != c,
        decreases v.len() - i,
    {
        if v[i] == c {
            assert(v@[i as int] == c);
            return true;
        }
        i += 1;
    }
    false
}

fn is_pair(v: &Vec<char>, a: char, b: char) -> (r: bool)
    ensures
        r == (v@ == seq![a, b]),
{
    if v.len() == 2 && v[0] == a && v[1] == b {
        assert(v@ =~= seq![a, b]);
        true
    } else {
        false
    }
}

/// Classifies a porcelain entry.
pub fn classify_git_status(entry: &GitPorcelainEntry) -> (r: (GitFileStatusKind, GitStatusCode))
    ensures
        r == classify(entry.index_status@ + entry.worktree_status@),
{
    let mut pair = chars_of(entry.index_status.as_str());
    let w = chars_of(entry.worktree_status.as_str());
    crate::text::append_chars(&mut pair, &w);
    if is_pair(&pair, '?', '?') {
        return (GitFileStatusKind::Untracked, GitStatusCode::Untracked);
    }
    let conflict = is_pair(&pair, 'D', 'D') || is_pair(&pair, 'A', 'U') || is_pair(&pair, 'U', 'D')
        || is_pair(&pair, 'U', 'A') || is_pair(&pair, 'D', 'U') || is_pair(&pair, 'A', 'A')
        || is_pair(&pair, 'U', 'U');
    if conflict || contains_char(&pair, 'U') {
        return (GitFileStatusKind::Conflict, GitStatusCode::Conflict);
    }
    if contains_char(&pair, 'D') {
        return (GitFileStatusKind::Deleted, GitStatusCode::Deleted);
    }
    if contains_char(&pair, 'R') || contains_char(&pair, 'C') {
        return (GitFileStatusKind::Renamed, GitStatusCode::Renamed);
    }
    if contains_char(&pair, 'A') {
        return (GitFileStatusKind::Added, GitStatusCode::Added);
    }
    (GitFileStatusKind::Modified, GitStatusCode::Modified)
}


/// How the two status letters of a porcelain record classify a file, letter
/// by letter: `??` is untracked; a `U` on either side, `DD` or `AA` is a
/// conflict; otherwise a `D` on either side (staged or not) is a deletion;
/// otherwise an `R` or `C` on either side is a rename; otherwise an `A` on
/// either side is an addition; anything else is a modification.
pub proof fn law_status_letters(x: char, y: char)
    ensures
        ({
            let c = classify(seq![x, y]);
            let conflict = x == 'U' || y == 'U' || (x == 'D' && y == 'D') || (x == 'A' && y == 'A');
            let deleted = x == 'D' || y == 'D';
            let renamed = x == 'R' || y == 'R' || x == 'C' || y == 'C';
            let added = x == 'A' || y == 'A';
            &&& (x == '?' && y == '?') ==> c == (GitFileStatusKind::Untracked, GitStatusCode::Untracked)
            &&& !(x == '?' && y == '?') && conflict ==> c == (GitFileStatusKind::Conflict, GitStatusCode::Conflict)
            &&& !conflict && deleted ==> c == (GitFileStatusKind::Deleted, GitStatusCode::Deleted)
            &&& !conflict && !deleted && renamed ==> c == (GitFileStatusKind::Renamed, GitStatusCode::Renamed)
            &&& !conflict && !deleted && !renamed && added ==> c == (GitFileStatusKind::Added, GitStatusCode::Added)
            &&& !(x == '?' && y == '?') && !conflict && !deleted && !renamed && !added ==> c == (
                GitFileStatusKind::Modified,
                GitStatusCode::Modified,
            )
        }),
{
    let p = seq![x, y];
    assert(p.contains('D') <==> (x == 'D' || y == 'D')) by {
        if x == 'D' { assert(p[0] == 'D'); }
        if y == 'D' { assert(p[1] == 'D'); }
    }
    assert(p.contains('U') <==> (x == 'U' || y == 'U')) by {
        if x == 'U' { assert(p[0] == 'U'); }
        if y == 'U' { assert(p[1] == 'U'); }
    }
    assert(p.contains('R') <==> (x == 'R' || y == 'R')) by {
        if x == 'R' { assert(p[0] == 'R'); }
        if y == 'R' { assert(p[1] == 'R'); }
    }
    assert(p.contains('C') <==> (x == 'C' || y == 'C')) by {
        if x == 'C' { assert(p[0] == 'C'); }
        if y == 'C' { assert(p[1] == 'C'); }
    }
    assert(p.contains('A') <==> (x == 'A' || y == 'A')) by {
        if x == 'A' { assert(p[0] == 'A'); }
        if y == 'A' { assert(p[1] == 'A'); }
    }
    assert(p == seq!['?', '?'] <==> (x == '?' && y == '?')) by {
        if p == seq!['?', '?'] { assert(p[0] == '?' && p[1] == '?'); }
    }
    assert(is_conflict_pair(p) ==> (x == 'U' || y == 'U' || (x == 'D' && y == 'D') || (x == 'A' && y == 'A'))) by {
        if is_conflict_pair(p) { assert(p[0] == x && p[1] == y); }
    }
    assert((x == 'D' && y == 'D') ==> p == seq!['D', 'D']);
    assert((x == 'A' && y == 'A') ==> p == seq!['A', 'A']);
}

} // verus!
