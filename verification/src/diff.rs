//! Unified diff parsing into a side-by-side (split) view model.
//!
//! The parser walks the patch line by line.  Its behaviour is stated as a
//! state machine over lines ([`step`]); [`parse_unified_patch`] is proved to
//! produce exactly the files that this machine yields, keeping only the
//! files that hold at least one line row.

use vstd::prelude::*;
use crate::text::{
    chars_of, find_char, find_char_exec, find_sub, find_sub_exec, has_prefix, lemma_find_char_from,
    lemma_find_sub_from, parse_i64, parse_i64_exec, split_char, split_char_exec, starts_with,
    string_of, sub_vec, trim, trim_end_char, trim_end_char_exec, trim_exec,
};

verus! {

/// Kind of a cell in the split view.
#[derive(Debug, Clone, Copy, PartialEq, Eq, Structural)]
pub enum SplitDiffCellType {
    Context,
    Removed,
    Added,
    Empty,
}

/// One side of a split-view line.
#[derive(Debug, Clone)]
pub struct SplitDiffCell {
    pub line_no: Option<i64>,
    pub text: String,
    pub cell_type: SplitDiffCellType,
}

/// A row of the split view: a hunk/annotation line, or a left/right pair.
#[derive(Debug, Clone)]
pub enum SplitDiffRow {
    Hunk { text: String },
    Line { left: SplitDiffCell, right: SplitDiffCell },
}

/// One file of a parsed patch.
#[derive(Debug, Clone)]
pub struct SplitDiffFile {
    pub old_path: Option<String>,
    pub new_path: Option<String>,
    pub rows: Vec<SplitDiffRow>,
}

pub struct CellView {
    pub line_no: Option<int>,
    pub text: Seq<char>,
    pub cell_type: SplitDiffCellType,
}

pub enum RowView {
    Hunk(Seq<char>),
    Line(CellView, CellView),
}

pub struct FileView {
    pub old_path: Option<Seq<char>>,
    pub new_path: Option<Seq<char>>,
    pub rows: Seq<RowView>,
}

pub open spec fn opt_str_view(o: Option<String>) -> Option<Seq<char>> {
    match o {
        Some(s) => Some(s@),
        None => None,
    }
}

impl View for SplitDiffCell {
    type V = CellView;

    open spec fn view(&self) -> CellView {
        CellView {
            line_no: match self.line_no {
                Some(n) => Some(n as int),
                None => None,
            },
            text: self.text@,
            cell_type: self.cell_type,
        }
    }
}

impl View for SplitDiffRow {
    type V = RowView;

    open spec fn view(&self) -> RowView {
        match self {
            SplitDiffRow::Hunk { text } => RowView::Hunk(text@),
            SplitDiffRow::Line { left, right } => RowView::Line(left@, right@),
        }
    }
}

pub open spec fn rows_view(rows: Seq<SplitDiffRow>) -> Seq<RowView> {
    rows.map_values(|r: SplitDiffRow| r@)
}

impl View for SplitDiffFile {
    type V = FileView;

    open spec fn view(&self) -> FileView {
        FileView {
            old_path: opt_str_view(self.old_path),
            new_path: opt_str_view(self.new_path),
            rows: rows_view(self.rows@),
        }
    }
}

pub open spec fn files_view(files: Seq<SplitDiffFile>) -> Seq<FileView> {
    files.map_values(|f: SplitDiffFile| f@)
}

// ---------------------------------------------------------------------------
// Specification of the line machine
// ---------------------------------------------------------------------------

/// Parsed `@@ -a,b +c,d @@` header.
pub struct HunkHeader {
    pub old_start: int,
    pub old_count: int,
    pub new_start: int,
    pub new_count: int,
}

pub open spec fn hunk_prefix() -> Seq<char> {
    seq!['@', '@', ' ', '-']
}

pub open spec fn hunk_suffix() -> Seq<char> {
    seq![' ', '@', '@']
}

pub open spec fn old_file_prefix() -> Seq<char> {
    seq!['-', '-', '-', ' ']
}

pub open spec fn new_file_prefix() -> Seq<char> {
    seq!['+', '+', '+', ' ']
}

pub open spec fn no_newline_prefix() -> Seq<char> {
    seq!['\\', ' ']
}

/// A range section `start[,count]` split at its first comma.
pub open spec fn split_section(sec: Seq<char>) -> (Seq<char>, Option<Seq<char>>) {
    match find_char(sec, ',') {
        Some(k) => (sec.take(k), Some(sec.skip(k + 1))),
        None => (sec, None),
    }
}

/// A range count: absent or unparsable counts read as 1.
pub open spec fn count_of(tail: Option<Seq<char>>) -> int {
    match tail {
        Some(t) => match parse_i64(t) {
            Some(v) => v,
            None => 1,
        },
        None => 1,
    }
}

/// `^@@ -(\d+)(?:,(\d+))? \+(\d+)(?:,(\d+))? @@`, read the way the parser
/// reads it: old section up to the first space, new section up to the first
/// ` @@`, starts parsed as `i64`.
pub open spec fn parse_hunk_header(line: Seq<char>) -> Option<HunkHeader> {
    if !starts_with(line, hunk_prefix()) {
        None
    } else {
        let r = line.skip(4);
        match find_char(r, ' ') {
            None => None,
            Some(i) => {
                let old_sec = r.take(i);
                let rest = r.skip(i + 1);
                if rest.len() == 0 || rest[0] != '+' {
                    None
                } else {
                    let rest2 = rest.skip(1);
                    match find_sub(rest2, hunk_suffix()) {
                        None => None,
                        Some(j) => {
                            let new_sec = rest2.take(j);
                            let (os, oc) = split_section(old_sec);
                            let (ns, nc) = split_section(new_sec);
                            match (parse_i64(os), parse_i64(ns)) {
                                (Some(a), Some(b)) => Some(
                                    HunkHeader {
                                        old_start: a,
                                        old_count: count_of(oc),
                                        new_start: b,
                                        new_count: count_of(nc),
                                    },
                                ),
                                _ => None,
                            }
                        },
                    }
                }
            },
        }
    }
}

/// `cleanPatchPath`: the part before the first tab, trimmed.
pub open spec fn clean_patch_path(path: Seq<char>) -> Seq<char> {
    match find_char(path, '\t') {
        Some(i) => trim(path.take(i)),
        None => trim(path),
    }
}

/// State of the line machine.
pub struct ParseState {
    pub files: Seq<FileView>,
    pub has_cur: bool,
    pub pending_old: Option<Seq<char>>,
    pub old_no: int,
    pub new_no: int,
    pub old_rem: int,
    pub new_rem: int,
    pub removed: Seq<(int, Seq<char>)>,
    pub added: Seq<(int, Seq<char>)>,
    pub overflow: bool,
}

pub open spec fn init_state() -> ParseState {
    ParseState {
        files: Seq::empty(),
        has_cur: false,
        pending_old: None,
        old_no: 0,
        new_no: 0,
        old_rem: 0,
        new_rem: 0,
        removed: Seq::empty(),
        added: Seq::empty(),
        overflow: false,
    }
}

pub open spec fn empty_cell() -> CellView {
    CellView { line_no: None, text: Seq::empty(), cell_type: SplitDiffCellType::Empty }
}

/// Row `i` of the side-by-side pairing of pending removed/added lines.
pub open spec fn change_row(
    removed: Seq<(int, Seq<char>)>,
    added: Seq<(int, Seq<char>)>,
    i: int,
) -> RowView {
    let left = if i < removed.len() {
        CellView {
            line_no: Some(removed[i].0),
            text: removed[i].1,
            cell_type: SplitDiffCellType::Removed,
        }
    } else {
        empty_cell()
    };
    let right = if i < added.len() {
        CellView {
            line_no: Some(added[i].0),
            text: added[i].1,
            cell_type: SplitDiffCellType::Added,
        }
    } else {
        empty_cell()
    };
    RowView::Line(left, right)
}

pub open spec fn max_len(a: int, b: int) -> int {
    if a >= b {
        a
    } else {
        b
    }
}

pub open spec fn change_rows(removed: Seq<(int, Seq<char>)>, added: Seq<(int, Seq<char>)>) -> Seq<
    RowView,
> {
    Seq::new(
        max_len(removed.len() as int, added.len() as int) as nat,
        |i: int| change_row(removed, added, i),
    )
}

/// Append rows to the current (last) file.
pub open spec fn append_rows(st: ParseState, rows: Seq<RowView>) -> ParseState {
    if st.has_cur && st.files.len() > 0 {
        let last = st.files.last();
        ParseState {
            files: st.files.update(
                st.files.len() - 1,
                FileView { rows: last.rows + rows, ..last },
            ),
            ..st
        }
    } else {
        st
    }
}

/// Emit pending removed/added lines as paired rows, then clear them.
pub open spec fn flush(st: ParseState) -> ParseState {
    let s1 = append_rows(st, change_rows(st.removed, st.added));
    ParseState { removed: Seq::empty(), added: Seq::empty(), ..s1 }
}

pub open spec fn dec(x: int) -> int {
    if x > 0 {
        x - 1
    } else {
        x
    }
}

pub open spec fn context_cell(n: int, text: Seq<char>) -> CellView {
    CellView { line_no: Some(n), text: text, cell_type: SplitDiffCellType::Context }
}

pub open spec fn empty_file() -> FileView {
    FileView { old_path: None, new_path: None, rows: Seq::empty() }
}

/// Effect of one raw line of the patch.
pub open spec fn step(st: ParseState, raw: Seq<char>) -> ParseState {
    let line = trim_end_char(raw, '\r');
    let inside = st.old_rem > 0 || st.new_rem > 0;
    if !inside && starts_with(line, old_file_prefix()) {
        ParseState { pending_old: Some(clean_patch_path(line.skip(4))), ..flush(st) }
    } else if !inside && starts_with(line, new_file_prefix()) {
        let f = flush(st);
        ParseState {
            files: f.files.push(
                FileView {
                    old_path: f.pending_old,
                    new_path: Some(clean_patch_path(line.skip(4))),
                    rows: Seq::empty(),
                },
            ),
            has_cur: true,
            pending_old: None,
            ..f
        }
    } else if parse_hunk_header(line) is Some {
        let h = parse_hunk_header(line)->0;
        let s1 = if st.has_cur {
            st
        } else {
            ParseState { files: st.files.push(empty_file()), has_cur: true, ..st }
        };
        let s2 = flush(s1);
        append_rows(
            ParseState {
                old_no: h.old_start,
                new_no: h.new_start,
                old_rem: h.old_count,
                new_rem: h.new_count,
                ..s2
            },
            seq![RowView::Hunk(line)],
        )
    } else if !st.has_cur {
        st
    } else if starts_with(line, no_newline_prefix()) {
        append_rows(flush(st), seq![RowView::Hunk(line)])
    } else if line.len() > 0 && line[0] == ' ' {
        let c = line.skip(1);
        let s1 = append_rows(
            flush(st),
            seq![RowView::Line(context_cell(st.old_no, c), context_cell(st.new_no, c))],
        );
        ParseState {
            old_no: st.old_no + 1,
            new_no: st.new_no + 1,
            old_rem: dec(st.old_rem),
            new_rem: dec(st.new_rem),
            overflow: st.overflow || st.old_no + 1 > i64::MAX || st.new_no + 1 > i64::MAX,
            ..s1
        }
    } else if line.len() > 0 && line[0] == '-' {
        ParseState {
            removed: st.removed.push((st.old_no, line.skip(1))),
            old_no: st.old_no + 1,
            old_rem: dec(st.old_rem),
            overflow: st.overflow || st.old_no + 1 > i64::MAX,
            ..st
        }
    } else if line.len() > 0 && line[0] == '+' {
        ParseState {
            added: st.added.push((st.new_no, line.skip(1))),
            new_no: st.new_no + 1,
            new_rem: dec(st.new_rem),
            overflow: st.overflow || st.new_no + 1 > i64::MAX,
            ..st
        }
    } else if line.len() > 0 {
        append_rows(flush(st), seq![RowView::Hunk(line)])
    } else {
        st
    }
}

/// The machine run over a sequence of lines.
pub open spec fn run(lines: Seq<Seq<char>>) -> ParseState
    decreases lines.len(),
{
    if lines.len() == 0 {
        init_state()
    } else {
        step(run(lines.drop_last()), lines.last())
    }
}

pub open spec fn has_line_row(f: FileView) -> bool {
    exists|i: int| 0 <= i < f.rows.len() && f.rows[i] is Line
}

/// Files with at least one line row, in order.
pub open spec fn keep_line_files(fs: Seq<FileView>) -> Seq<FileView>
    decreases fs.len(),
{
    if fs.len() == 0 {
        fs
    } else if has_line_row(fs[0]) {
        seq![fs[0]] + keep_line_files(fs.drop_first())
    } else {
        keep_line_files(fs.drop_first())
    }
}

/// Result of parsing `text`: `None` when no file has a line row.
pub open spec fn parse_unified_patch_spec(text: Seq<char>) -> Option<Seq<FileView>> {
    let kept = keep_line_files(flush(run(split_char(text, '\n'))).files);
    if kept.len() == 0 {
        None
    } else {
        Some(kept)
    }
}

/// Whether a line counter of the machine would leave the `i64` range.
pub open spec fn patch_overflows(text: Seq<char>) -> bool {
    run(split_char(text, '\n')).overflow
}


// ---------------------------------------------------------------------------
// Implementation
// ---------------------------------------------------------------------------

fn split_section_exec(sec: &Vec<char>) -> (r: (Vec<char>, Option<Vec<char>>))
    ensures
        r.0@ == split_section(sec@).0,
        match r.1 {
            Some(t) => split_section(sec@).1 == Some(t@),
            None => split_section(sec@).1 is None,
        },
{
    proof {
        lemma_find_char_from(sec@, ',', 0);
    }
    match find_char_exec(sec, ',', 0) {
        Some(k) => (sub_vec(sec, 0, k), Some(sub_vec(sec, k + 1, sec.len()))),
        None => (sub_vec(sec, 0, sec.len()), None),
    }
}

fn count_of_exec(tail: &Option<Vec<char>>) -> (r: i64)
    ensures
        r as int == count_of(
            match tail {
                Some(t) => Some(t@),
                None => None,
            },
        ),
{
    match tail {
        Some(t) => match parse_i64_exec(t) {
            Some(v) => v,
            None => 1,
        },
        None => 1,
    }
}

/// Parse an `@@ -a,b +c,d @@` hunk header line.
fn parse_hunk_header_exec(line: &Vec<char>) -> (r: Option<(i64, i64, i64, i64)>)
    ensures
        match r {
            Some(h) => parse_hunk_header(line@) == Some(
                HunkHeader {
                    old_start: h.0 as int,
                    old_count: h.1 as int,
                    new_start: h.2 as int,
                    new_count: h.3 as int,
                },
            ),
            None => parse_hunk_header(line@) is None,
        },
{
    let prefix = vec!['@', '@', ' ', '-'];
    assert(prefix@ == hunk_prefix());
    if !has_prefix(line, &prefix) {
        return None;
    }
    let r = sub_vec(line, 4, line.len());
    assert(r@ == line@.skip(4));
    proof {
        lemma_find_char_from(r@, ' ', 0);
    }
    let i = match find_char_exec(&r, ' ', 0) {
        Some(i) => i,
        None => return None,
    };
    let old_sec = sub_vec(&r, 0, i);
    let rest = sub_vec(&r, i + 1, r.len());
    assert(old_sec@ == r@.take(i as int));
    assert(rest@ == r@.skip(i + 1));
    if rest.len() == 0 || rest[0] != '+' {
        return None;
    }
    let rest2 = sub_vec(&rest, 1, rest.len());
    assert(rest2@ == rest@.skip(1));
    let suffix = vec![' ', '@', '@'];
    assert(suffix@ == hunk_suffix());
    proof {
        lemma_find_sub_from(rest2@, suffix@, 0);
    }
    let j = match find_sub_exec(&rest2, &suffix, 0) {
        Some(j) => j,
        None => return None,
    };
    let new_sec = sub_vec(&rest2, 0, j);
    assert(new_sec@ == rest2@.take(j as int));
    let (os, oc) = split_section_exec(&old_sec);
    let (ns, nc) = split_section_exec(&new_sec);
    let a = match parse_i64_exec(&os) {
        Some(a) => a,
        None => return None,
    };
    let b = match parse_i64_exec(&ns) {
        Some(b) => b,
        None => return None,
    };
    let ocv = count_of_exec(&oc);
    let ncv = count_of_exec(&nc);
    Some((a, ocv, b, ncv))
}

fn clean_patch_path_exec(path: &Vec<char>) -> (r: Vec<char>)
    ensures
        r@ == clean_patch_path(path@),
{
    proof {
        lemma_find_char_from(path@, '\t', 0);
    }
    match find_char_exec(path, '\t', 0) {
        Some(i) => {
            let head = sub_vec(path, 0, i);
            assert(head@ == path@.take(i as int));
            trim_exec(&head)
        },
        None => trim_exec(path),
    }
}

struct PendingChangeLine {
    line_no: i64,
    text: String,
}

spec fn pending_view(v: Seq<PendingChangeLine>) -> Seq<(int, Seq<char>)> {
    v.map_values(|p: PendingChangeLine| (p.line_no as int, p.text@))
}

struct PatchParser {
    done: Vec<SplitDiffFile>,
    cur: SplitDiffFile,
    has_cur: bool,
    pending_old: Option<String>,
    old_no: i64,
    new_no: i64,
    old_rem: i64,
    new_rem: i64,
    removed: Vec<PendingChangeLine>,
    added: Vec<PendingChangeLine>,
}

fn new_file(old_path: Option<String>, new_path: Option<String>) -> (f: SplitDiffFile)
    ensures
        f@ == (FileView {
            old_path: opt_str_view(old_path),
            new_path: opt_str_view(new_path),
            rows: Seq::empty(),
        }),
{
    let f = SplitDiffFile { old_path, new_path, rows: Vec::new() };
    assert(rows_view(f.rows@) =~= Seq::<RowView>::empty());
    f
}

impl PatchParser {
    spec fn files(&self) -> Seq<FileView> {
        if self.has_cur {
            files_view(self.done@).push(self.cur@)
        } else {
            files_view(self.done@)
        }
    }

    spec fn state(&self) -> ParseState {
        ParseState {
            files: self.files(),
            has_cur: self.has_cur,
            pending_old: opt_str_view(self.pending_old),
            old_no: self.old_no as int,
            new_no: self.new_no as int,
            old_rem: self.old_rem as int,
            new_rem: self.new_rem as int,
            removed: pending_view(self.removed@),
            added: pending_view(self.added@),
            overflow: false,
        }
    }

    fn new() -> (p: PatchParser)
        ensures
            p.state() == init_state(),
    {
        let p = PatchParser {
            done: Vec::new(),
            cur: new_file(None, None),
            has_cur: false,
            pending_old: None,
            old_no: 0,
            new_no: 0,
            old_rem: 0,
            new_rem: 0,
            removed: Vec::new(),
            added: Vec::new(),
        };
        assert(files_view(p.done@) =~= Seq::<FileView>::empty());
        assert(pending_view(p.removed@) =~= Seq::<(int, Seq<char>)>::empty());
        assert(pending_view(p.added@) =~= Seq::<(int, Seq<char>)>::empty());
        p
    }

    fn push_row(&mut self, row: SplitDiffRow)
        ensures
            final(self).state() == append_rows(old(self).state(), seq![row@]),
    {
        if self.has_cur {
            let ghost before = self.cur@;
            self.cur.rows.push(row);
            assert(rows_view(self.cur.rows@) =~= before.rows + seq![row@]);
            assert(self.files() =~= old(self).files().update(
                old(self).files().len() - 1,
                FileView { rows: before.rows + seq![row@], ..before },
            ));
        }
    }

    fn start_file(&mut self, f: SplitDiffFile)
        ensures
            final(self).state() == (ParseState {
                files: old(self).state().files.push(f@),
                has_cur: true,
                ..old(self).state()
            }),
    {
        if self.has_cur {
            let mut g = f;
            std::mem::swap(&mut g, &mut self.cur);
            self.done.push(g);
            assert(files_view(self.done@) =~= files_view(old(self).done@).push(old(self).cur@));
        } else {
            self.cur = f;
            self.has_cur = true;
        }
    }

    fn flush(&mut self)
        ensures
            final(self).state() == flush(old(self).state()),
    {
        let ghost st = self.state();
        if self.has_cur {
            let n = if self.removed.len() >= self.added.len() {
                self.removed.len()
            } else {
                self.added.len()
            };
            let ghost rows0 = self.cur@.rows;
            let ghost cr = change_rows(st.removed, st.added);
            assert(cr.len() == n);
            for i in 0..n
                invariant
                    self.has_cur,
                    n == cr.len(),
                    cr == change_rows(st.removed, st.added),
                    st.removed == pending_view(self.removed@),
                    st.added == pending_view(self.added@),
                    self.done@ == old(self).done@,
                    self.cur.old_path == old(self).cur.old_path,
                    self.cur.new_path == old(self).cur.new_path,
                    rows_view(self.cur.rows@) == rows0 + cr.take(i as int),
                    self.pending_old == old(self).pending_old,
                    self.old_no == old(self).old_no,
                    self.new_no == old(self).new_no,
                    self.old_rem == old(self).old_rem,
                    self.new_rem == old(self).new_rem,
                    self.removed@ == old(self).removed@,
                    self.added@ == old(self).added@,
            {
                let left = if i < self.removed.len() {
                    SplitDiffCell {
                        line_no: Some(self.removed[i].line_no),
                        text: self.removed[i].text.clone(),
                        cell_type: SplitDiffCellType::Removed,
                    }
                } else {
                    SplitDiffCell {
                        line_no: None,
                        text: String::new(),
                        cell_type: SplitDiffCellType::Empty,
                    }
                };
                let right = if i < self.added.len() {
                    SplitDiffCell {
                        line_no: Some(self.added[i].line_no),
                        text: self.added[i].text.clone(),
                        cell_type: SplitDiffCellType::Added,
                    }
                } else {
                    SplitDiffCell {
                        line_no: None,
                        text: String::new(),
                        cell_type: SplitDiffCellType::Empty,
                    }
                };
                let row = SplitDiffRow::Line { left, right };
                assert(row@ == change_row(st.removed, st.added, i as int));
                let ghost before = rows_view(self.cur.rows@);
                self.cur.rows.push(row);
                assert(rows_view(self.cur.rows@) =~= before.push(row@));
                assert(cr.take(i + 1) =~= cr.take(i as int).push(cr[i as int]));
            }
            assert(cr.take(n as int) =~= cr);
            assert(self.files() =~= st.files.update(
                st.files.len() - 1,
                FileView { rows: rows0 + cr, ..st.files.last() },
            ));
        }
        self.removed = Vec::new();
        self.added = Vec::new();
        assert(pending_view(self.removed@) =~= Seq::<(int, Seq<char>)>::empty());
        assert(pending_view(self.added@) =~= Seq::<(int, Seq<char>)>::empty());
    }
}


impl PatchParser {
    fn feed(&mut self, raw: &Vec<char>)
        requires
            !step(old(self).state(), raw@).overflow,
        ensures
            final(self).state() == step(old(self).state(), raw@),
    {
        let ghost st = self.state();
        let line = trim_end_char_exec(raw, '\r');
        let ghost l = line@;
        assert(l == trim_end_char(raw@, '\r'));
        let inside = self.old_rem > 0 || self.new_rem > 0;
        let p_old = vec!['-', '-', '-', ' '];
        assert(p_old@ == old_file_prefix());
        if !inside && has_prefix(&line, &p_old) {
            self.flush();
            let rest = sub_vec(&line, 4, line.len());
            assert(rest@ == l.skip(4));
            let cleaned = clean_patch_path_exec(&rest);
            self.pending_old = Some(string_of(&cleaned));
            return;
        }
        let p_new = vec!['+', '+', '+', ' '];
        assert(p_new@ == new_file_prefix());
        if !inside && has_prefix(&line, &p_new) {
            self.flush();
            let rest = sub_vec(&line, 4, line.len());
            assert(rest@ == l.skip(4));
            let cleaned = clean_patch_path_exec(&rest);
            let mut old_path: Option<String> = None;
            std::mem::swap(&mut old_path, &mut self.pending_old);
            let f = new_file(old_path, Some(string_of(&cleaned)));
            self.start_file(f);
            return;
        }
        match parse_hunk_header_exec(&line) {
            Some(h) => {
                let (os, oc, ns, nc) = h;
                if !self.has_cur {
                    let f = new_file(None, None);
                    self.start_file(f);
                }
                self.flush();
                self.old_no = os;
                self.new_no = ns;
                self.old_rem = oc;
                self.new_rem = nc;
                self.push_row(SplitDiffRow::Hunk { text: string_of(&line) });
                return;
            },
            None => {},
        }
        if !self.has_cur {
            return;
        }
        let p_nonl = vec!['\\', ' '];
        assert(p_nonl@ == no_newline_prefix());
        if has_prefix(&line, &p_nonl) {
            self.flush();
            self.push_row(SplitDiffRow::Hunk { text: string_of(&line) });
            return;
        }
        if line.len() > 0 && line[0] == ' ' {
            let content = sub_vec(&line, 1, line.len());
            assert(content@ == l.skip(1));
            let o = self.old_no;
            let n = self.new_no;
            self.flush();
            let left = SplitDiffCell {
                line_no: Some(o),
                text: string_of(&content),
                cell_type: SplitDiffCellType::Context,
            };
            let right = SplitDiffCell {
                line_no: Some(n),
                text: string_of(&content),
                cell_type: SplitDiffCellType::Context,
            };
            self.push_row(SplitDiffRow::Line { left, right });
            self.old_no = o + 1;
            self.new_no = n + 1;
            if self.old_rem > 0 {
                self.old_rem = self.old_rem - 1;
            }
            if self.new_rem > 0 {
                self.new_rem = self.new_rem - 1;
            }
            return;
        }
        if line.len() > 0 && line[0] == '-' {
            let content = sub_vec(&line, 1, line.len());
            assert(content@ == l.skip(1));
            let ghost before = pending_view(self.removed@);
            self.removed.push(PendingChangeLine { line_no: self.old_no, text: string_of(&content) });
            assert(pending_view(self.removed@) =~= before.push((st.old_no, l.skip(1))));
            self.old_no = self.old_no + 1;
            if self.old_rem > 0 {
                self.old_rem = self.old_rem - 1;
            }
            return;
        }
        if line.len() > 0 && line[0] == '+' {
            let content = sub_vec(&line, 1, line.len());
            assert(content@ == l.skip(1));
            let ghost before = pending_view(self.added@);
            self.added.push(PendingChangeLine { line_no: self.new_no, text: string_of(&content) });
            assert(pending_view(self.added@) =~= before.push((st.new_no, l.skip(1))));
            self.new_no = self.new_no + 1;
            if self.new_rem > 0 {
                self.new_rem = self.new_rem - 1;
            }
            return;
        }
        if line.len() > 0 {
            self.flush();
            self.push_row(SplitDiffRow::Hunk { text: string_of(&line) });
        }
    }
}



impl PatchParser {
    /// Whether feeding `raw` would take a line counter past `i64::MAX`.
    fn overflows(&self, raw: &Vec<char>) -> (b: bool)
        ensures
            b == step(self.state(), raw@).overflow,
    {
        let line = trim_end_char_exec(raw, '\r');
        let inside = self.old_rem > 0 || self.new_rem > 0;
        let p_old = vec!['-', '-', '-', ' '];
        assert(p_old@ == old_file_prefix());
        if !inside && has_prefix(&line, &p_old) {
            return false;
        }
        let p_new = vec!['+', '+', '+', ' '];
        assert(p_new@ == new_file_prefix());
        if !inside && has_prefix(&line, &p_new) {
            return false;
        }
        if parse_hunk_header_exec(&line).is_some() {
            return false;
        }
        if !self.has_cur {
            return false;
        }
        let p_nonl = vec!['\\', ' '];
        assert(p_nonl@ == no_newline_prefix());
        if has_prefix(&line, &p_nonl) {
            return false;
        }
        if line.len() > 0 && line[0] == ' ' {
            return self.old_no == i64::MAX || self.new_no == i64::MAX;
        }
        if line.len() > 0 && line[0] == '-' {
            return self.old_no == i64::MAX;
        }
        if line.len() > 0 && line[0] == '+' {
            return self.new_no == i64::MAX;
        }
        false
    }
}

proof fn lemma_step_keeps_overflow(st: ParseState, raw: Seq<char>)
    ensures
        st.overflow ==> step(st, raw).overflow,
{
}

proof fn lemma_run_overflow_mono(lines: Seq<Seq<char>>, k: int)
    requires
        0 <= k <= lines.len(),
        run(lines.take(k)).overflow,
    ensures
        run(lines).overflow,
    decreases lines.len() - k,
{
    if k == lines.len() {
        assert(lines.take(k) == lines);
    } else {
        let t = lines.take(k + 1);
        assert(t.drop_last() =~= lines.take(k));
        lemma_step_keeps_overflow(run(lines.take(k)), t.last());
        lemma_run_overflow_mono(lines, k + 1);
    }
}

fn file_has_line_row(f: &SplitDiffFile) -> (b: bool)
    ensures
        b == has_line_row(f@),
{
    let mut i: usize = 0;
    while i < f.rows.len()
        invariant
            i <= f.rows.len(),
            forall|j: int| 0 <= j < i ==> !(#[trigger] f@.rows[j] is Line),
        decreases f.rows.len() - i,
    {
        match &f.rows[i] {
            SplitDiffRow::Line { .. } => {
                assert(f@.rows[i as int] is Line);
                return true;
            },
            SplitDiffRow::Hunk { .. } => {},
        }
        i += 1;
    }
    false
}

/// Parse a unified diff into split-view files (`parseUnifiedPatch`).
///
/// Returns `None` when no file of the patch holds a changed or context line.
pub fn parse_unified_patch(text: &str) -> (r: Option<Vec<SplitDiffFile>>)
    requires
        !patch_overflows(text@),
    ensures
        match r {
            Some(v) => parse_unified_patch_spec(text@) == Some(files_view(v@)),
            None => parse_unified_patch_spec(text@) is None,
        },
{
    let chars = chars_of(text);
    let lines = split_char_exec(&chars, '\n');
    let ghost ls = lines@.map_values(|v: Vec<char>| v@);
    let mut p = PatchParser::new();
    assert(ls.take(0) =~= Seq::<Seq<char>>::empty());
    for i in 0..lines.len()
        invariant
            ls == lines@.map_values(|v: Vec<char>| v@),
            ls == split_char(text@, '\n'),
            !run(ls).overflow,
            p.state() == run(ls.take(i as int)),
    {
        assert(ls.take(i + 1).drop_last() =~= ls.take(i as int));
        assert(ls.take(i + 1).last() == lines@[i as int]@);
        proof {
            if run(ls.take(i + 1)).overflow {
                lemma_run_overflow_mono(ls, i + 1);
            }
        }
        p.feed(&lines[i]);
    }
    assert(ls.take(lines.len() as int) =~= ls);
    p.flush();
    let ghost all_files = flush(run(ls)).files;
    let mut rest: Vec<SplitDiffFile> = Vec::new();
    std::mem::swap(&mut rest, &mut p.done);
    if p.has_cur {
        let mut last = new_file(None, None);
        std::mem::swap(&mut last, &mut p.cur);
        rest.push(last);
    }
    assert(files_view(rest@) =~= all_files);
    let mut kept: Vec<SplitDiffFile> = Vec::new();
    while rest.len() > 0
        invariant
            keep_line_files(all_files) == files_view(kept@) + keep_line_files(files_view(rest@)),
        decreases rest.len(),
    {
        let ghost rv = files_view(rest@);
        let f = rest.remove(0);
        assert(files_view(rest@) =~= rv.drop_first());
        if file_has_line_row(&f) {
            let ghost kv = files_view(kept@);
            kept.push(f);
            assert(files_view(kept@) =~= kv.push(rv[0]));
            assert(kv.push(rv[0]) + keep_line_files(rv.drop_first()) =~= kv + (seq![rv[0]]
                + keep_line_files(rv.drop_first())));
        }
    }
    assert(files_view(rest@) =~= Seq::<FileView>::empty());
    assert(files_view(kept@) + Seq::<FileView>::empty() =~= files_view(kept@));
    if kept.len() == 0 {
        None
    } else {
        Some(kept)
    }
}


/// [`parse_unified_patch`] on every input: `None` exactly when a line
/// counter of the patch would leave the `i64` range.
pub fn parse_unified_patch_checked(text: &str) -> (r: Option<Option<Vec<SplitDiffFile>>>)
    ensures
        r is None <==> patch_overflows(text@),
        r matches Some(res) ==> match res {
            Some(v) => parse_unified_patch_spec(text@) == Some(files_view(v@)),
            None => parse_unified_patch_spec(text@) is None,
        },
{
    let chars = chars_of(text);
    let lines = split_char_exec(&chars, '\n');
    let ghost ls = lines@.map_values(|v: Vec<char>| v@);
    let mut p = PatchParser::new();
    assert(ls.take(0) =~= Seq::<Seq<char>>::empty());
    for i in 0..lines.len()
        invariant
            ls == lines@.map_values(|v: Vec<char>| v@),
            ls == split_char(text@, '\n'),
            p.state() == run(ls.take(i as int)),
    {
        assert(ls.take(i + 1).drop_last() =~= ls.take(i as int));
        assert(ls.take(i + 1).last() == lines@[i as int]@);
        if p.overflows(&lines[i]) {
            proof {
                lemma_run_overflow_mono(ls, i + 1);
            }
            return None;
        }
        p.feed(&lines[i]);
    }
    assert(ls.take(lines.len() as int) =~= ls);
    assert(!run(ls).overflow);
    Some(parse_unified_patch(text))
}


/// Line numbers in a hunk: a context line is shown at the old file's and
/// the new file's current line numbers and advances both; a removed line
/// takes the old number and advances only it; an added line takes the new
/// number and advances only it; a hunk header sets both to its starts.
pub proof fn law_patch_line_numbers(st: ParseState, raw: Seq<char>)
    requires
        st.has_cur,
        st.files.len() > 0,
    ensures
        ({
            let line = trim_end_char(raw, '\r');
            let s2 = step(st, raw);
            &&& line.len() > 0 && line[0] == ' ' ==> {
                &&& s2.files.len() == st.files.len()
                &&& s2.files.last().rows.len() > 0
                &&& s2.files.last().rows.last() == RowView::Line(
                    CellView {
                        line_no: Some(st.old_no),
                        text: line.skip(1),
                        cell_type: SplitDiffCellType::Context,
                    },
                    CellView {
                        line_no: Some(st.new_no),
                        text: line.skip(1),
                        cell_type: SplitDiffCellType::Context,
                    },
                )
                &&& s2.old_no == st.old_no + 1
                &&& s2.new_no == st.new_no + 1
            }
            &&& line.len() > 0 && line[0] == '-' && !starts_with(line, old_file_prefix()) ==> {
                &&& s2.removed == st.removed.push((st.old_no, line.skip(1)))
                &&& s2.old_no == st.old_no + 1
                &&& s2.new_no == st.new_no
            }
            &&& line.len() > 0 && line[0] == '+' && !starts_with(line, new_file_prefix()) ==> {
                &&& s2.added == st.added.push((st.new_no, line.skip(1)))
                &&& s2.new_no == st.new_no + 1
                &&& s2.old_no == st.old_no
            }
            &&& parse_hunk_header(line) matches Some(h) ==> s2.old_no == h.old_start && s2.new_no
                == h.new_start
        }),
{
    let line = trim_end_char(raw, '\r');
    if line.len() > 0 && line[0] != '-' {
        assert(!starts_with(line, old_file_prefix()));
    }
    if line.len() > 0 && line[0] != '+' {
        assert(!starts_with(line, new_file_prefix()));
    }
    if line.len() > 0 && line[0] != '@' {
        assert(!starts_with(line, hunk_prefix()));
    }
    if line.len() > 0 && line[0] != '\\' {
        assert(!starts_with(line, no_newline_prefix()));
    }
}

} // verus!
