//! Compaction summaries: the summary text, followed by optional trailing
//! `<read-files>` / `<modified-files>` sections listing one path per line.
//!
//! Finding the sections is done with the `regex` crate; what the matches
//! give is then turned into the parsed summary by verified code.

use vstd::prelude::*;
use crate::git::changes::{lines_exec, lines_of};
use crate::text::{chars_of, string_of, trim, trim_exec};

verus! {

broadcast use vstd::string::group_string_axioms;

/// A parsed compaction summary.
#[derive(Debug, Clone, Default, PartialEq, Eq)]
pub struct ParsedCompactionSummary {
    pub body: String,
    pub read_files: Vec<String>,
    pub modified_files: Vec<String>,
}

/// Pattern of the trailing file sections: two or more line breaks, then one
/// or more `<read-files>` / `<modified-files>` blocks (group 1), then only
/// whitespace to the end.
pub const TRAILING_FILE_SECTIONS_PATTERN: &'static str = "(?:\\r?\\n){2,}((?:[ \\t]*<(?:read-files|modified-files)>[ \\t]*\\r?\\n[\\s\\S]*?\\r?\\n[ \\t]*</(?:read-files|modified-files)>[ \\t]*(?:\\r?\\n)?)+)\\s*$";

/// Pattern of one `<read-files>` block; group 1 is its trimmed content.
pub const READ_FILES_PATTERN: &'static str = "<read-files>\\s*([\\s\\S]*?)\\s*</read-files>";

/// Pattern of one `<modified-files>` block; group 1 is its trimmed content.
pub const MODIFIED_FILES_PATTERN: &'static str = "<modified-files>\\s*([\\s\\S]*?)\\s*</modified-files>";

/// For the first match of `pattern` in `text`: the text before the match and
/// the text of capture group 1.
pub uninterp spec fn regex_first_match_split(pattern: Seq<char>, text: Seq<char>) -> Option<
    (Seq<char>, Seq<char>),
>;

/// Capture group 1 of every successive non-overlapping match of `pattern`
/// in `text`.
pub uninterp spec fn regex_all_group1(pattern: Seq<char>, text: Seq<char>) -> Seq<Seq<char>>;

/// `Regex::captures` (compiling `pattern` with `Regex::new`): for the first
/// match, the text before it and capture group 1, as named by
/// [`regex_first_match_split`].  A match without group 1 is reported as no
/// match. Only the trailing-sections pattern is compiled here, which
/// `Regex::new` accepts; another pattern could be refused.
#[verifier::external_body]
fn regex_captures_split(pattern: &str, text: &str) -> (r: Option<(String, String)>)
    requires
        pattern@ == TRAILING_FILE_SECTIONS_PATTERN@,
    ensures
        match r {
            Some((before, group)) => regex_first_match_split(pattern@, text@) == Some(
                (before@, group@),
            ),
            None => regex_first_match_split(pattern@, text@) is None,
        },
{
    let re = regex::Regex::new(pattern).expect("valid pattern");
    let caps = re.captures(text)?;
    let all = caps.get(0)?;
    let group = caps.get(1)?;
    Some((text[..all.start()].to_string(), group.as_str().to_string()))
}

/// `Regex::captures_iter` (compiling `pattern` with `Regex::new`): capture
/// group 1 of every match, as named by [`regex_all_group1`]; a match without
/// group 1 gives the empty string. Only the two section-block patterns are
/// compiled here, which `Regex::new` accepts; another pattern could be
/// refused.
#[verifier::external_body]
fn regex_captures_group1(pattern: &str, text: &str) -> (r: Vec<String>)
    requires
        pattern@ == READ_FILES_PATTERN@ || pattern@ == MODIFIED_FILES_PATTERN@,
    ensures
        r@.map_values(|s: String| s@) == regex_all_group1(pattern@, text@),
{
    let re = regex::Regex::new(pattern).expect("valid pattern");
    re.captures_iter(text).map(|c| c.get(1).map_or("", |m| m.as_str()).to_string()).collect()
}

/// The non-empty trimmed lines of a section's content.
pub open spec fn section_files(content: Seq<char>) -> Seq<Seq<char>> {
    nonempty_trimmed(lines_of(content))
}

/// The non-empty trimmed lines of a list of lines, in order.
pub open spec fn nonempty_trimmed(ls: Seq<Seq<char>>) -> Seq<Seq<char>>
    decreases ls.len(),
{
    if ls.len() == 0 {
        seq![]
    } else {
        let rest = nonempty_trimmed(ls.drop_last());
        let t = trim(ls.last());
        if t.len() > 0 {
            rest.push(t)
        } else {
            rest
        }
    }
}

/// The files listed by a sequence of section contents, section by section.
pub open spec fn files_of_sections(sections: Seq<Seq<char>>) -> Seq<Seq<char>>
    decreases sections.len(),
{
    if sections.len() == 0 {
        seq![]
    } else {
        files_of_sections(sections.drop_last()) + section_files(sections.last())
    }
}

/// The body of a summary: the trimmed text before the trailing sections, or
/// the whole trimmed summary when there are none.
pub open spec fn summary_body(summary: Seq<char>, split: Option<(Seq<char>, Seq<char>)>) -> Seq<char> {
    match split {
        Some((before, _)) => trim(before),
        None => trim(summary),
    }
}

/// The text of the trailing sections (empty when there are none).
pub open spec fn sections_block(split: Option<(Seq<char>, Seq<char>)>) -> Seq<char> {
    match split {
        Some((_, block)) => block,
        None => seq![],
    }
}

pub open spec fn strings_view(v: Seq<String>) -> Seq<Seq<char>> {
    v.map_values(|s: String| s@)
}

pub open spec fn split_view(o: Option<(String, String)>) -> Option<(Seq<char>, Seq<char>)> {
    match o {
        Some((a, b)) => Some((a@, b@)),
        None => None,
    }
}

/// Appends the files of one section's content.
fn push_section_files(out: &mut Vec<String>, content: &str)
    ensures
        strings_view(final(out)@) == strings_view(old(out)@) + section_files(content@),
{
    let c = chars_of(content);
    let ls = lines_exec(&c);
    let ghost lv = ls@.map_values(|v: Vec<char>| v@);
    let ghost o0 = strings_view(out@);
    let mut i: usize = 0;
    assert(lv.take(0) =~= Seq::<Seq<char>>::empty());
    assert(strings_view(out@) =~= o0 + nonempty_trimmed(lv.take(0)));
    while i < ls.len()
        invariant
            i <= ls.len(),
            lv == ls@.map_values(|v: Vec<char>| v@),
            strings_view(out@) == o0 + nonempty_trimmed(lv.take(i as int)),
        decreases ls.len() - i,
    {
        assert(lv.take(i + 1).drop_last() =~= lv.take(i as int));
        assert(lv[i as int] == ls@[i as int]@);
        let t = trim_exec(&ls[i]);
        if t.len() > 0 {
            let ghost before = out@;
            out.push(string_of(t.as_slice()));
            assert(strings_view(out@) =~= strings_view(before).push(t@));
        }
        i += 1;
    }
    assert(lv.take(ls.len() as int) =~= lv);
}

/// The files of a list of section contents.
fn collect_section_files(sections: &Vec<String>) -> (r: Vec<String>)
    ensures
        strings_view(r@) == files_of_sections(strings_view(sections@)),
{
    let ghost sv = strings_view(sections@);
    let mut out: Vec<String> = Vec::new();
    let mut i: usize = 0;
    assert(sv.take(0) =~= Seq::<Seq<char>>::empty());
    while i < sections.len()
        invariant
            i <= sections.len(),
            sv == strings_view(sections@),
            strings_view(out@) == files_of_sections(sv.take(i as int)),
        decreases sections.len() - i,
    {
        assert(sv.take(i + 1).drop_last() =~= sv.take(i as int));
        push_section_files(&mut out, sections[i].as_str());
        i += 1;
    }
    assert(sv.take(sections.len() as int) =~= sv);
    out
}

/// Builds the parsed summary from what the section patterns matched:
/// `split` is the text before the trailing sections and the sections
/// themselves (if any), `read_sections` / `modified_sections` the contents
/// of the `<read-files>` / `<modified-files>` blocks found in them.
pub fn compaction_from_matches(
    summary: &str,
    split: Option<(String, String)>,
    read_sections: Vec<String>,
    modified_sections: Vec<String>,
) -> (r: ParsedCompactionSummary)
    ensures
        r.body@ == summary_body(summary@, split_view(split)),
        strings_view(r.read_files@) == files_of_sections(strings_view(read_sections@)),
        strings_view(r.modified_files@) == files_of_sections(strings_view(modified_sections@)),
{
    let body = match &split {
        Some((before, _)) => trim_exec(&chars_of(before.as_str())),
        None => trim_exec(&chars_of(summary)),
    };
    ParsedCompactionSummary {
        body: string_of(body.as_slice()),
        read_files: collect_section_files(&read_sections),
        modified_files: collect_section_files(&modified_sections),
    }
}

/// Parses a compaction summary: the body, and the files listed in its
/// trailing `<read-files>` / `<modified-files>` sections (one per line,
/// trimmed, blank lines skipped).
pub fn parse_compaction_summary(summary: &str) -> (r: ParsedCompactionSummary)
    ensures
        ({
            let split = regex_first_match_split(TRAILING_FILE_SECTIONS_PATTERN@, summary@);
            let block = sections_block(split);
            &&& r.body@ == summary_body(summary@, split)
            &&& strings_view(r.read_files@) == files_of_sections(
                regex_all_group1(READ_FILES_PATTERN@, block),
            )
            &&& strings_view(r.modified_files@) == files_of_sections(
                regex_all_group1(MODIFIED_FILES_PATTERN@, block),
            )
        }),
{
    let split = regex_captures_split(TRAILING_FILE_SECTIONS_PATTERN, summary);
    let block = match &split {
        Some((_, b)) => string_of(chars_of(b.as_str()).as_slice()),
        None => String::new(),
    };
    let read_sections = regex_captures_group1(READ_FILES_PATTERN, block.as_str());
    let modified_sections = regex_captures_group1(MODIFIED_FILES_PATTERN, block.as_str());
    compaction_from_matches(summary, split, read_sections, modified_sections)
}

} // verus!
