//! Directory listings and the `@` completion index: which names are left
//! out, how entries are ordered, and the requests and checks of the files
//! and index commands.

use vstd::prelude::*;
use crate::api::files::resolve_path;
use crate::api::types::ApiError;
use crate::fs::allowed_roots::strings_view;
use crate::fs::directory_browser::{
    code_less, code_less_exec, lemma_code_le_transitive, lemma_code_less_irreflexive, lemma_code_less_transitive,
};
use crate::json::{
    items_view, json_get, lemma_array_view, lemma_object_view, members_view, Json, JsonValue,
};
use crate::api::session_state::{string_array, string_array_exec};
use crate::file::fuzzy::{
    build_entries_from_files, entries_view, filter_file_entries_checked, filter_succeeds,
    filtered, index_of, FileIndexEntry,
};
use crate::file::paths::nonempty_segments;
use crate::file::types::TEXT_PREVIEW_MAX_BYTES;
use crate::fs::directory_browser::expand_home;
use crate::paths::resolve_spec;
use crate::text::{
    append_chars, chars_eq, chars_of, decimal, decimal_u64_exec, lowercase, split_char,
    split_char_exec, string_of, to_lowercase,
};

verus! {

broadcast use vstd::string::group_string_axioms;

/// Names that listings and the index leave out.
pub open spec fn ignored_names() -> Seq<Seq<char>> {
    seq!["node_modules"@, ".git"@, ".next"@, "dist"@, "build"@, "__pycache__"@]
}

/// A name is left out: one of the ignored names, or a `.pyc` file.
pub open spec fn is_ignored(name: Seq<char>) -> bool {
    ignored_names().contains(name) || (name.len() >= 4 && name.skip(name.len() - 4) == ".pyc"@)
}

/// Whether listings and the index leave this name out.
pub fn is_ignored_name(name: &str) -> (b: bool)
    ensures
        b == is_ignored(name@),
{
    let n = chars_of(name);
    let names = [
        "node_modules", ".git", ".next", "dist", "build", "__pycache__",
    ];
    let mut i: usize = 0;
    proof {
        reveal_strlit(".pyc");
    }
    assert(names@.map_values(|s: &str| s@) =~= ignored_names());
    while i < 6
        invariant
            i <= 6,
            n@ == name@,
            names@.map_values(|s: &str| s@) == ignored_names(),
            forall|j: int| 0 <= j < i ==> ignored_names()[j] != name@,
        decreases 6 - i,
    {
        assert(names@.map_values(|s: &str| s@)[i as int] == names@[i as int]@);
        if chars_eq(&n, &chars_of(names[i])) {
            assert(ignored_names()[i as int] == name@);
            return true;
        }
        i += 1;
    }
    assert(!ignored_names().contains(name@));
    if n.len() >= 4 && n[n.len() - 4] == '.' && n[n.len() - 3] == 'p' && n[n.len() - 2] == 'y'
        && n[n.len() - 1] == 'c' {
        assert(n@.skip(n.len() - 4) =~= ".pyc"@);
        true
    } else {
        if n.len() >= 4 {
            assert(n@.skip(n.len() - 4)[0] == n@[n.len() - 4]);
            assert(n@.skip(n.len() - 4)[1] == n@[n.len() - 3]);
            assert(n@.skip(n.len() - 4)[2] == n@[n.len() - 2]);
            assert(n@.skip(n.len() - 4)[3] == n@[n.len() - 1]);
        }
        false
    }
}

/// One entry of a directory listing.
#[derive(Debug, Clone)]
pub struct ListEntry {
    pub name: String,
    pub is_dir: bool,
    pub size: u64,
    pub modified: String,
}

/// The view of a listing entry.
pub open spec fn entry_view(e: ListEntry) -> (Seq<char>, bool, u64, Seq<char>) {
    (e.name@, e.is_dir, e.size, e.modified@)
}

pub open spec fn listing_view(v: Seq<ListEntry>) -> Seq<(Seq<char>, bool, u64, Seq<char>)> {
    v.map_values(|e: ListEntry| entry_view(e))
}

/// `a` comes before `b`: directories first, then names in `String` order
/// of their lower case.
pub open spec fn listed_before(a: (Seq<char>, bool, u64, Seq<char>), b: (Seq<char>, bool, u64, Seq<char>)) -> bool {
    (a.1 && !b.1) || (a.1 == b.1 && code_less(lowercase(a.0), lowercase(b.0)))
}

/// Inserts `x` after the last entry that does not come after it.
pub open spec fn insert_listed(
    s: Seq<(Seq<char>, bool, u64, Seq<char>)>,
    x: (Seq<char>, bool, u64, Seq<char>),
) -> Seq<(Seq<char>, bool, u64, Seq<char>)>
    decreases s.len(),
{
    if s.len() == 0 {
        seq![x]
    } else if listed_before(x, s.last()) {
        insert_listed(s.drop_last(), x).push(s.last())
    } else {
        s.push(x)
    }
}

/// Stable sort of listing entries: directories first, then by lower-case
/// name.
pub open spec fn sort_listing_spec(s: Seq<(Seq<char>, bool, u64, Seq<char>)>) -> Seq<
    (Seq<char>, bool, u64, Seq<char>),
>
    decreases s.len(),
{
    if s.len() == 0 {
        s
    } else {
        insert_listed(sort_listing_spec(s.drop_last()), s.last())
    }
}

fn listed_before_exec(a: &ListEntry, b: &ListEntry) -> (r: bool)
    ensures
        r == listed_before(entry_view(*a), entry_view(*b)),
{
    if a.is_dir != b.is_dir {
        a.is_dir
    } else {
        code_less_exec(
            &chars_of(to_lowercase(a.name.as_str()).as_str()),
            &chars_of(to_lowercase(b.name.as_str()).as_str()),
        )
    }
}

fn insert_listed_exec(v: &mut Vec<ListEntry>, x: ListEntry)
    ensures
        listing_view(final(v)@) == insert_listed(listing_view(old(v)@), entry_view(x)),
{
    let ghost xs = listing_view(v@);
    let mut j: usize = v.len();
    assert(xs.take(j as int) =~= xs && xs.skip(j as int) =~= Seq::<(Seq<char>, bool, u64, Seq<char>)>::empty());
    while j > 0 && listed_before_exec(&x, &v[j - 1])
        invariant
            j <= v.len(),
            xs == listing_view(v@),
            insert_listed(xs, entry_view(x)) == insert_listed(xs.take(j as int), entry_view(x))
                + xs.skip(j as int),
        decreases j,
    {
        assert(xs.take(j as int).drop_last() =~= xs.take(j - 1));
        assert(xs.skip(j - 1) =~= seq![xs[j - 1]] + xs.skip(j as int));
        assert(xs.take(j as int).last() == xs[j - 1]);
        assert(insert_listed(xs.take(j - 1), entry_view(x)).push(xs[j - 1]) + xs.skip(j as int)
            =~= insert_listed(xs.take(j - 1), entry_view(x)) + xs.skip(j - 1));
        j -= 1;
    }
    let ghost xv = entry_view(x);
    v.insert(j, x);
    assert(listing_view(v@) =~= xs.take(j as int).push(xv) + xs.skip(j as int));
}

/// Orders a directory listing: directories first, then names ignoring
/// case (entries that compare equal keep their order).
pub fn sort_listing(entries: Vec<ListEntry>) -> (r: Vec<ListEntry>)
    ensures
        listing_view(r@) == sort_listing_spec(listing_view(entries@)),
{
    let ghost orig = entries@;
    let mut rest = entries;
    let mut out: Vec<ListEntry> = Vec::new();
    let mut n: usize = 0;
    assert(orig.len() == rest.len());
    assert(listing_view(orig).take(0) =~= Seq::<(Seq<char>, bool, u64, Seq<char>)>::empty());
    while rest.len() > 0
        invariant
            n <= orig.len() <= usize::MAX,
            rest@ == orig.skip(n as int),
            listing_view(out@) == sort_listing_spec(listing_view(orig).take(n as int)),
        decreases rest.len(),
    {
        let e = rest.remove(0);
        assert(e == orig[n as int]);
        assert(listing_view(orig).take(n + 1).drop_last() =~= listing_view(orig).take(n as int));
        insert_listed_exec(&mut out, e);
        n += 1;
        assert(rest@ =~= orig.skip(n as int));
    }
    assert(listing_view(orig).take(n as int) =~= listing_view(orig));
    out
}

/// Not after: `a` may stand before `b`.
pub open spec fn listed_le(a: (Seq<char>, bool, u64, Seq<char>), b: (Seq<char>, bool, u64, Seq<char>)) -> bool {
    !listed_before(b, a)
}

proof fn lemma_listed_le_transitive(
    a: (Seq<char>, bool, u64, Seq<char>),
    b: (Seq<char>, bool, u64, Seq<char>),
    c: (Seq<char>, bool, u64, Seq<char>),
)
    requires
        listed_le(a, b),
        listed_le(b, c),
    ensures
        listed_le(a, c),
{
    let (la, lb, lc) = (lowercase(a.0), lowercase(b.0), lowercase(c.0));
    if a.1 == b.1 && b.1 == c.1 {
        lemma_code_le_transitive(la, lb, lc);
    }
}

proof fn lemma_listed_before_asymmetric(
    a: (Seq<char>, bool, u64, Seq<char>),
    b: (Seq<char>, bool, u64, Seq<char>),
)
    requires
        listed_before(a, b),
    ensures
        listed_le(a, b),
{
    let (la, lb) = (lowercase(a.0), lowercase(b.0));
    if a.1 == b.1 && code_less(lb, la) {
        lemma_code_less_transitive(la, lb, la);
        lemma_code_less_irreflexive(la);
    }
}

/// Listing entries in order (each may stand before the next).
pub open spec fn listing_sorted(s: Seq<(Seq<char>, bool, u64, Seq<char>)>) -> bool {
    forall|i: int, j: int| 0 <= i < j < s.len() ==> listed_le(#[trigger] s[i], #[trigger] s[j])
}

proof fn lemma_insert_listed(
    s: Seq<(Seq<char>, bool, u64, Seq<char>)>,
    x: (Seq<char>, bool, u64, Seq<char>),
)
    requires
        listing_sorted(s),
    ensures
        listing_sorted(insert_listed(s, x)),
        insert_listed(s, x).to_multiset() == s.to_multiset().insert(x),
    decreases s.len(),
{
    broadcast use vstd::seq_lib::group_to_multiset_ensures;

    if s.len() == 0 {
        assert(seq![x] =~= Seq::<(Seq<char>, bool, u64, Seq<char>)>::empty().push(x));
    } else {
        let p = s.drop_last();
        let last = s.last();
        assert(s =~= p.push(last));
        assert(listing_sorted(p)) by {
            assert forall|i: int, j: int| 0 <= i < j < p.len() implies listed_le(
                #[trigger] p[i],
                #[trigger] p[j],
            ) by {
                assert(p[i] == s[i] && p[j] == s[j]);
            }
        }
        if listed_before(x, last) {
            lemma_insert_listed(p, x);
            let q = insert_listed(p, x);
            assert forall|k: int| 0 <= k < q.len() implies listed_le(#[trigger] q[k], last) by {
                assert(q.to_multiset().count(q[k]) > 0);
                if q[k] == x {
                    lemma_listed_before_asymmetric(x, last);
                } else {
                    assert(p.to_multiset().count(q[k]) > 0);
                    assert(p.contains(q[k]));
                    let m = choose|m: int| 0 <= m < p.len() && p[m] == q[k];
                    assert(s[m] == q[k] && s[s.len() - 1] == last);
                }
            }
            let r = q.push(last);
            assert forall|i: int, j: int| 0 <= i < j < r.len() implies listed_le(
                #[trigger] r[i],
                #[trigger] r[j],
            ) by {
                if j == q.len() {
                    assert(r[i] == q[i]);
                } else {
                    assert(r[i] == q[i] && r[j] == q[j]);
                }
            }
        } else {
            let r = s.push(x);
            assert forall|i: int, j: int| 0 <= i < j < r.len() implies listed_le(
                #[trigger] r[i],
                #[trigger] r[j],
            ) by {
                if j == s.len() {
                    assert(r[i] == s[i]);
                    if i < s.len() - 1 {
                        lemma_listed_le_transitive(s[i], last, x);
                    }
                } else {
                    assert(r[i] == s[i] && r[j] == s[j]);
                }
            }
        }
    }
}

/// A listing comes out with directories first and names in order, and
/// holds the entries given, each as often as given.
pub proof fn law_listing_sorted(s: Seq<(Seq<char>, bool, u64, Seq<char>)>)
    ensures
        listing_sorted(sort_listing_spec(s)),
        sort_listing_spec(s).to_multiset() == s.to_multiset(),
    decreases s.len(),
{
    broadcast use vstd::seq_lib::group_to_multiset_ensures;

    if s.len() > 0 {
        law_listing_sorted(s.drop_last());
        lemma_insert_listed(sort_listing_spec(s.drop_last()), s.last());
        assert(s =~= s.drop_last().push(s.last()));
    }
}


/// What a files request asks for.
#[derive(Debug, Clone, Copy, PartialEq, Eq, Structural)]
pub enum FilesOp {
    List,
    Read,
    Meta,
    Preview,
    Download,
    UploadCheck,
    Upload,
}

/// A files request: what it asks for and the path it names.
#[derive(Debug)]
pub struct FilesRequest {
    pub op: FilesOp,
    pub path: String,
}

/// The `type` of a files request (`list` when missing or not a string).
pub open spec fn files_type(args: Json) -> Seq<char> {
    match json_get(args, "type"@) {
        Some(Json::Str(t)) => t,
        _ => "list"@,
    }
}

/// The `path` argument, with its leading `/` put back when it was lost.
pub open spec fn restored_path(p: Seq<char>) -> Seq<char> {
    if p.len() > 0 && p[0] == '/' {
        p
    } else {
        seq!['/'] + p
    }
}

/// The operation of a type name.
pub open spec fn files_op(ty: Seq<char>) -> Option<FilesOp> {
    if ty == "list"@ {
        Some(FilesOp::List)
    } else if ty == "read"@ {
        Some(FilesOp::Read)
    } else if ty == "meta"@ {
        Some(FilesOp::Meta)
    } else if ty == "preview"@ {
        Some(FilesOp::Preview)
    } else if ty == "download"@ {
        Some(FilesOp::Download)
    } else if ty == "upload-check"@ {
        Some(FilesOp::UploadCheck)
    } else if ty == "upload"@ {
        Some(FilesOp::Upload)
    } else {
        None
    }
}

/// A files request read from its arguments: the `path` is required (400);
/// `watch` is not implemented (501); another unknown type is refused
/// (400); the path is resolved like every files API path.
pub open spec fn files_request_spec(args: Json, home: Seq<char>, cwd: Seq<char>) -> Result<
    (FilesOp, Seq<char>),
    (u16, Seq<char>),
> {
    let raw = match json_get(args, "path"@) {
        Some(Json::Str(p)) => p,
        _ => seq![],
    };
    let ty = files_type(args);
    if raw.len() == 0 {
        Err((400, "path is required"@))
    } else {
        match files_op(ty) {
            Some(op) => Ok((op, resolve_spec(expand_home(restored_path(raw), home), cwd))),
            None => if ty == "watch"@ {
                Err(
                    (
                        501,
                        "file watch stream not implemented (frontend EventSource interception retained)"@,
                    ),
                )
            } else {
                Err((400, "unknown type: "@ + ty))
            },
        }
    }
}

fn files_op_exec(ty: &Vec<char>) -> (r: Option<FilesOp>)
    ensures
        r == files_op(ty@),
{
    if chars_eq(ty, &chars_of("list")) {
        Some(FilesOp::List)
    } else if chars_eq(ty, &chars_of("read")) {
        Some(FilesOp::Read)
    } else if chars_eq(ty, &chars_of("meta")) {
        Some(FilesOp::Meta)
    } else if chars_eq(ty, &chars_of("preview")) {
        Some(FilesOp::Preview)
    } else if chars_eq(ty, &chars_of("download")) {
        Some(FilesOp::Download)
    } else if chars_eq(ty, &chars_of("upload-check")) {
        Some(FilesOp::UploadCheck)
    } else if chars_eq(ty, &chars_of("upload")) {
        Some(FilesOp::Upload)
    } else {
        None
    }
}

/// Reads a files request (`home` and `cwd` resolve the path).
pub fn files_request(args: &JsonValue, home: &str, cwd: &str) -> (r: Result<FilesRequest, ApiError>)
    ensures
        match files_request_spec(args@, home@, cwd@) {
            Ok((op, path)) => r matches Ok(q) && q.op == op && q.path@ == path,
            Err((status, message)) => r matches Err(e) && e.status == status && e.message@
                == message,
        },
{
    let raw = match args.get("path") {
        Some(JsonValue::Str(p)) => chars_of(p.as_str()),
        _ => Vec::new(),
    };
    let ty = match args.get("type") {
        Some(JsonValue::Str(t)) => chars_of(t.as_str()),
        _ => chars_of("list"),
    };
    if raw.len() == 0 {
        return Err(ApiError::new(400, "path is required"));
    }
    let restored = if raw[0] == '/' {
        raw
    } else {
        let mut p: Vec<char> = Vec::new();
        p.push('/');
        append_chars(&mut p, &raw);
        assert(p@ =~= seq!['/'] + raw@);
        p
    };
    match files_op_exec(&ty) {
        Some(op) => {
            let path = resolve_path(string_of(restored.as_slice()).as_str(), home, cwd);
            Ok(FilesRequest { op, path })
        },
        None => if chars_eq(&ty, &chars_of("watch")) {
            Err(
                ApiError::new(
                    501,
                    "file watch stream not implemented (frontend EventSource interception retained)",
                ),
            )
        } else {
            let mut m = chars_of("unknown type: ");
            append_chars(&mut m, &ty);
            Err(ApiError::new(400, string_of(m.as_slice()).as_str()))
        },
    }
}

/// A text file is read only up to the text preview limit: larger is 413.
pub fn check_text_size(size: u64) -> (r: Result<(), ApiError>)
    ensures
        size <= TEXT_PREVIEW_MAX_BYTES ==> r is Ok,
        size > TEXT_PREVIEW_MAX_BYTES ==> (r matches Err(e) && e.status == 413 && e.message@
            == "file too large for text preview ("@ + decimal(size as nat) + " > "@ + decimal(
            TEXT_PREVIEW_MAX_BYTES as nat,
        ) + " bytes)"@),
{
    if size <= TEXT_PREVIEW_MAX_BYTES as u64 {
        return Ok(());
    }
    let mut m = chars_of("file too large for text preview (");
    append_chars(&mut m, &decimal_u64_exec(size));
    append_chars(&mut m, &chars_of(" > "));
    append_chars(&mut m, &decimal_u64_exec(TEXT_PREVIEW_MAX_BYTES as u64));
    append_chars(&mut m, &chars_of(" bytes)"));
    Err(ApiError::new(413, string_of(m.as_slice()).as_str()))
}

/// Most files the index lists.
pub const MAX_INDEX_FILES: usize = 5000;

/// Inserts a path after the last one that is not greater (`String` order).
pub open spec fn insert_path(s: Seq<Seq<char>>, x: Seq<char>) -> Seq<Seq<char>>
    decreases s.len(),
{
    if s.len() == 0 {
        seq![x]
    } else if code_less(x, s.last()) {
        insert_path(s.drop_last(), x).push(s.last())
    } else {
        s.push(x)
    }
}

/// Paths in `String` order.
pub open spec fn sort_paths(s: Seq<Seq<char>>) -> Seq<Seq<char>>
    decreases s.len(),
{
    if s.len() == 0 {
        s
    } else {
        insert_path(sort_paths(s.drop_last()), s.last())
    }
}

/// The index from `git ls-files -z` output: its non-empty NUL-separated
/// paths in `String` order, at most `MAX_INDEX_FILES` of them, and whether
/// there were more.
pub open spec fn ls_files_index_spec(output: Seq<char>) -> (Seq<Seq<char>>, bool) {
    let all = sort_paths(nonempty_segments(split_char(output, '\0')));
    if all.len() > MAX_INDEX_FILES {
        (all.take(MAX_INDEX_FILES as int), true)
    } else {
        (all, false)
    }
}

fn insert_path_exec(v: &mut Vec<String>, x: String)
    ensures
        strings_view(final(v)@) == insert_path(strings_view(old(v)@), x@),
{
    let ghost xs = strings_view(v@);
    let xc = chars_of(x.as_str());
    let mut j: usize = v.len();
    assert(xs.take(j as int) =~= xs && xs.skip(j as int) =~= Seq::<Seq<char>>::empty());
    while j > 0 && code_less_exec(&xc, &chars_of(v[j - 1].as_str()))
        invariant
            j <= v.len(),
            xs == strings_view(v@),
            xc@ == x@,
            insert_path(xs, x@) == insert_path(xs.take(j as int), x@) + xs.skip(j as int),
        decreases j,
    {
        assert(xs.take(j as int).drop_last() =~= xs.take(j - 1));
        assert(xs.skip(j - 1) =~= seq![xs[j - 1]] + xs.skip(j as int));
        assert(xs.take(j as int).last() == xs[j - 1]);
        assert(insert_path(xs.take(j - 1), x@).push(xs[j - 1]) + xs.skip(j as int)
            =~= insert_path(xs.take(j - 1), x@) + xs.skip(j - 1));
        j -= 1;
    }
    let ghost xv = x@;
    v.insert(j, x);
    assert(strings_view(v@) =~= xs.take(j as int).push(xv) + xs.skip(j as int));
}

/// Builds the index from `git ls-files -z` output.
pub fn ls_files_index(output: &str) -> (r: (Vec<String>, bool))
    ensures
        (strings_view(r.0@), r.1) == ls_files_index_spec(output@),
{
    let pieces = split_char_exec(&chars_of(output), '\0');
    let ghost pv = pieces@.map_values(|v: Vec<char>| v@);
    let mut sorted: Vec<String> = Vec::new();
    assert(pv.take(0) =~= Seq::<Seq<char>>::empty());
    for i in 0..pieces.len()
        invariant
            pv == pieces@.map_values(|v: Vec<char>| v@),
            strings_view(sorted@) == sort_paths(nonempty_segments(pv.take(i as int))),
    {
        let ghost prev = nonempty_segments(pv.take(i as int));
        assert(pv.take(i + 1).drop_last() =~= pv.take(i as int));
        assert(pv.take(i + 1).last() == pv[i as int]);
        assert(pv[i as int] == pieces@[i as int]@);
        if pieces[i].len() > 0 {
            insert_path_exec(&mut sorted, string_of(pieces[i].as_slice()));
            assert(prev.push(pv[i as int]).drop_last() =~= prev);
        }
    }
    assert(pv.take(pieces.len() as int) =~= pv);
    if sorted.len() > MAX_INDEX_FILES {
        let ghost all = strings_view(sorted@);
        sorted.truncate(MAX_INDEX_FILES);
        assert(strings_view(sorted@) =~= all.take(MAX_INDEX_FILES as int));
        (sorted, true)
    } else {
        (sorted, false)
    }
}

/// The checks of the index's directory (shown as `shown`): it must be
/// absolute (400), exist (404) and be a directory (400).
pub fn check_index_cwd(shown: &str, is_absolute: bool, exists: bool, is_dir: bool) -> (r: Result<
    (),
    ApiError,
>)
    ensures
        !is_absolute ==> (r matches Err(e) && e.status == 400 && e.message@
            == "cwd must be an absolute path"@),
        is_absolute && !exists ==> (r matches Err(e) && e.status == 404 && e.message@
            == "directory does not exist: "@ + shown@),
        is_absolute && exists && !is_dir ==> (r matches Err(e) && e.status == 400 && e.message@
            == "not a directory: "@ + shown@),
        is_absolute && exists && is_dir ==> r is Ok,
{
    if !is_absolute {
        return Err(ApiError::new(400, "cwd must be an absolute path"));
    }
    if !exists {
        let mut m = chars_of("directory does not exist: ");
        append_chars(&mut m, &chars_of(shown));
        return Err(ApiError::new(404, string_of(m.as_slice()).as_str()));
    }
    if !is_dir {
        let mut m = chars_of("not a directory: ");
        append_chars(&mut m, &chars_of(shown));
        return Err(ApiError::new(400, string_of(m.as_slice()).as_str()));
    }
    Ok(())
}


/// Most matches a completion query answers with.
pub const MAX_INDEX_MATCHES: usize = 20;

/// How deep the index walks below its directory.
pub const MAX_WALK_DEPTH: usize = 8;

/// Most entries the index walk looks at.
pub const WALK_HARD_CAP: usize = 50000;

/// The answer to an index request without a directory: `{matches: []}` for
/// a query (a string `q`), else `{files: [], truncated: false}`.
pub open spec fn empty_index(args: Json) -> Json {
    match json_get(args, "q"@) {
        Some(Json::Str(_)) => Json::Object(seq![("matches"@, Json::Array(seq![]))]),
        _ => Json::Object(seq![("files"@, Json::Array(seq![])), ("truncated"@, Json::Bool(false))]),
    }
}

/// Answers an index request without a directory.
pub fn empty_index_answer(args: &JsonValue) -> (r: JsonValue)
    ensures
        r@ == empty_index(args@),
{
    let empty: Vec<JsonValue> = Vec::new();
    proof {
        lemma_array_view(empty);
    }
    assert(items_view(empty@) =~= Seq::<Json>::empty());
    let es = match args.get("q") {
        Some(JsonValue::Str(_)) => vec![(string_of(chars_of("matches").as_slice()), JsonValue::Array(empty))],
        _ => vec![
            (string_of(chars_of("files").as_slice()), JsonValue::Array(empty)),
            (string_of(chars_of("truncated").as_slice()), JsonValue::Bool(false)),
        ],
    };
    proof {
        lemma_object_view(es);
    }
    assert(members_view(es@) =~= empty_index(args@)->Object_0);
    JsonValue::Object(es)
}

/// One completion match: `{isDir, path}`.
pub open spec fn match_json(e: (Seq<char>, bool)) -> Json {
    Json::Object(seq![("isDir"@, Json::Bool(e.1)), ("path"@, Json::Str(e.0))])
}

/// The answer of the index: without a query `{files, truncated}`; with one
/// `{matches}`, the best entries of the index (files and their
/// directories) for it. `None` where ranking cannot score an entry.
pub open spec fn index_answer(files: Seq<Seq<char>>, truncated: bool, q: Seq<char>) -> Option<Json> {
    if q.len() == 0 {
        Some(Json::Object(seq![("files"@, string_array(files)), ("truncated"@, Json::Bool(truncated))]))
    } else if filter_succeeds(index_of(files), q) {
        Some(
            Json::Object(
                seq![
                    ("matches"@, Json::Array(
                        filtered(index_of(files), q, MAX_INDEX_MATCHES as int).map_values(
                            |e: (Seq<char>, bool)| match_json(e),
                        ),
                    )),
                ],
            ),
        )
    } else {
        None
    }
}

fn matches_value(v: &Vec<FileIndexEntry>) -> (r: JsonValue)
    ensures
        r@ == Json::Array(entries_view(v@).map_values(|e: (Seq<char>, bool)| match_json(e))),
{
    let ghost want = entries_view(v@).map_values(|e: (Seq<char>, bool)| match_json(e));
    let mut out: Vec<JsonValue> = Vec::new();
    for i in 0..v.len()
        invariant
            want == entries_view(v@).map_values(|e: (Seq<char>, bool)| match_json(e)),
            items_view(out@) == want.take(i as int),
    {
        let es = vec![
            (string_of(chars_of("isDir").as_slice()), JsonValue::Bool(v[i].is_dir)),
            (
                string_of(chars_of("path").as_slice()),
                JsonValue::Str(string_of(chars_of(v[i].path.as_str()).as_slice())),
            ),
        ];
        proof {
            lemma_object_view(es);
        }
        assert(members_view(es@) =~= want[i as int]->Object_0);
        let ghost before = items_view(out@);
        out.push(JsonValue::Object(es));
        assert(items_view(out@) =~= before.push(want[i as int]));
        assert(want.take(i + 1) =~= want.take(i as int).push(want[i as int]));
    }
    assert(want.take(v.len() as int) =~= want);
    proof {
        lemma_array_view(out);
    }
    JsonValue::Array(out)
}

/// Answers an index request from the index and the query.
pub fn file_index_answer(files: &Vec<String>, truncated: bool, q: &str) -> (r: Option<JsonValue>)
    ensures
        match index_answer(strings_view(files@), truncated, q@) {
            Some(j) => r matches Some(v) && v@ == j,
            None => r is None,
        },
{
    if q.is_empty() {
        let es = vec![
            (string_of(chars_of("files").as_slice()), string_array_exec(files)),
            (string_of(chars_of("truncated").as_slice()), JsonValue::Bool(truncated)),
        ];
        proof {
            lemma_object_view(es);
        }
        assert(members_view(es@) =~= index_answer(strings_view(files@), truncated, q@)->0->Object_0);
        return Some(JsonValue::Object(es));
    }
    let entries = build_entries_from_files(files.as_slice());
    match filter_file_entries_checked(entries.as_slice(), q, MAX_INDEX_MATCHES) {
        None => None,
        Some(found) => {
            let es = vec![(string_of(chars_of("matches").as_slice()), matches_value(&found))];
            proof {
                lemma_object_view(es);
            }
            assert(members_view(es@) =~= index_answer(strings_view(files@), truncated, q@)->0->Object_0);
            Some(JsonValue::Object(es))
        },
    }
}

/// The state of the index walk that stands in for git: the files found
/// (paths relative to the directory), whether the index is full, and how
/// many entries were looked at.
pub struct IndexWalk {
    pub files: Vec<String>,
    pub truncated: bool,
    pub visited: usize,
}

impl IndexWalk {
    /// A walk that has found nothing yet.
    pub fn new() -> (w: IndexWalk)
        ensures
            w.files@.len() == 0,
            !w.truncated,
            w.visited == 0,
    {
        IndexWalk { files: Vec::new(), truncated: false, visited: 0 }
    }

    /// The walk looks no further: the index is full or enough entries were
    /// looked at.
    pub fn stopped(&self) -> (b: bool)
        ensures
            b == (self.truncated || self.visited >= WALK_HARD_CAP),
    {
        self.truncated || self.visited >= WALK_HARD_CAP
    }

    /// Whether to read a directory `depth` levels below the start.
    pub fn enters(&self, depth: usize) -> (b: bool)
        ensures
            b == !(self.truncated || self.visited >= WALK_HARD_CAP || depth > MAX_WALK_DEPTH),
    {
        !(self.stopped() || depth > MAX_WALK_DEPTH)
    }

    /// Looks at an entry named `name`: one whose name is left out is not
    /// counted (`false`); another is counted (`true`).
    pub fn visit(&mut self, name: &str) -> (counted: bool)
        requires
            old(self).visited < WALK_HARD_CAP,
        ensures
            counted == !is_ignored(name@),
            final(self).visited == old(self).visited + if counted {
                1int
            } else {
                0int
            },
            final(self).files@ == old(self).files@,
            final(self).truncated == old(self).truncated,
    {
        if is_ignored_name(name) {
            false
        } else {
            self.visited = self.visited + 1;
            true
        }
    }

    /// Adds a file at `rel`; a full index takes no more and is marked
    /// truncated (`false`).
    pub fn add_file(&mut self, rel: String) -> (added: bool)
        ensures
            added == (old(self).files@.len() < MAX_INDEX_FILES),
            added ==> strings_view(final(self).files@) == strings_view(old(self).files@).push(rel@)
                && final(self).truncated == old(self).truncated,
            !added ==> final(self).files@ == old(self).files@ && final(self).truncated,
            final(self).visited == old(self).visited,
    {
        if self.files.len() >= MAX_INDEX_FILES {
            self.truncated = true;
            false
        } else {
            let ghost before = strings_view(self.files@);
            let ghost rv = rel@;
            self.files.push(rel);
            assert(strings_view(self.files@) =~= before.push(rv));
            true
        }
    }
}

} // verus!
