//! The answers of the files endpoint once the file system has been asked:
//! directory listings, text reads, metadata, previews, downloads, and the
//! checks and bookkeeping of uploads.

use vstd::prelude::*;
use vstd::utf8::{decode_utf8, valid_utf8};
use crate::api::export::path_file_name;
use crate::api::file_listing::{
    is_ignored, is_ignored_name, listing_view, sort_listing, sort_listing_spec, ListEntry,
};
use crate::api::files::{
    document_kind_of, document_preview_kind, extension_of, extension_spec, file_name_exec,
    language_for_path, language_of_path, mime_for, mime_of, multipart_overlaps, multipart_parts,
    parse_multipart_checked, parts_view,
};
use crate::api::session_state::{string_array, string_array_exec};
use crate::api::types::ApiError;
use crate::auth::is_valid_utf8;
use crate::fs::allowed_roots::strings_view;
use crate::fs::file_upload::{
    strategy_of, upload_names_error, validate_upload_file_names, UploadConflictStrategy,
};
use crate::json::{
    items_view, json_get, lemma_array_view, lemma_object_view, members_view, Json, JsonNumber,
    JsonValue, NumberView,
};
use crate::text::{append_chars, chars_eq, chars_of, from_utf8_lossy, string_of};

verus! {

broadcast use vstd::string::group_string_axioms;

fn owned(s: &str) -> (r: String)
    ensures
        r@ == s@,
{
    string_of(chars_of(s).as_slice())
}

fn message_with(prefix: &str, subject: &str) -> (r: String)
    ensures
        r@ == prefix@ + subject@,
{
    let mut m = chars_of(prefix);
    append_chars(&mut m, &chars_of(subject));
    string_of(m.as_slice())
}

// ---------------------------------------------------------------------------
// Listings
// ---------------------------------------------------------------------------

/// The entries a listing shows: those whose names are not left out.
pub open spec fn shown_entries(s: Seq<(Seq<char>, bool, u64, Seq<char>)>) -> Seq<
    (Seq<char>, bool, u64, Seq<char>),
>
    decreases s.len(),
{
    if s.len() == 0 {
        s
    } else if is_ignored(s.last().0) {
        shown_entries(s.drop_last())
    } else {
        shown_entries(s.drop_last()).push(s.last())
    }
}

/// One listed entry: `{isDir, modified, name, size}`.
pub open spec fn entry_json(e: (Seq<char>, bool, u64, Seq<char>)) -> Json {
    Json::Object(
        seq![
            ("isDir"@, Json::Bool(e.1)),
            ("modified"@, Json::Str(e.3)),
            ("name"@, Json::Str(e.0)),
            ("size"@, Json::Number(NumberView::PosInt(e.2))),
        ],
    )
}

/// A directory listing: `{entries, path}`, the entries without the names
/// left out, directories first and then by name regardless of case.
pub open spec fn listing_json(path: Seq<char>, es: Seq<(Seq<char>, bool, u64, Seq<char>)>) -> Json {
    Json::Object(
        seq![
            ("entries"@, Json::Array(
                sort_listing_spec(shown_entries(es)).map_values(
                    |e: (Seq<char>, bool, u64, Seq<char>)| entry_json(e),
                ),
            )),
            ("path"@, Json::Str(path)),
        ],
    )
}

fn entry_value(e: ListEntry) -> (r: JsonValue)
    ensures
        r@ == entry_json((e.name@, e.is_dir, e.size, e.modified@)),
{
    let ghost ev = (e.name@, e.is_dir, e.size, e.modified@);
    let es = vec![
        (owned("isDir"), JsonValue::Bool(e.is_dir)),
        (owned("modified"), JsonValue::Str(e.modified)),
        (owned("name"), JsonValue::Str(e.name)),
        (owned("size"), JsonValue::Number(JsonNumber::PosInt(e.size))),
    ];
    proof {
        lemma_object_view(es);
    }
    assert(members_view(es@) =~= entry_json(ev)->Object_0);
    JsonValue::Object(es)
}

/// The answer to a listing of `path`, from the entries read there.
pub fn listing_body(path: &str, entries: Vec<ListEntry>) -> (r: JsonValue)
    ensures
        r@ == listing_json(path@, listing_view(entries@)),
{
    let ghost orig = entries@;
    let ghost lv = listing_view(orig);
    let mut rest = entries;
    let mut kept: Vec<ListEntry> = Vec::new();
    let mut n: usize = 0;
    assert(orig.len() == rest.len());
    assert(lv.take(0) =~= Seq::<(Seq<char>, bool, u64, Seq<char>)>::empty());
    while rest.len() > 0
        invariant
            n <= orig.len() <= usize::MAX,
            rest@ == orig.skip(n as int),
            lv == listing_view(orig),
            listing_view(kept@) == shown_entries(lv.take(n as int)),
        decreases rest.len(),
    {
        let e = rest.remove(0);
        assert(e == orig[n as int]);
        assert(lv.take(n + 1).drop_last() =~= lv.take(n as int));
        assert(lv.take(n + 1).last() == (e.name@, e.is_dir, e.size, e.modified@));
        let ghost before = listing_view(kept@);
        if !is_ignored_name(e.name.as_str()) {
            let ghost x = (e.name@, e.is_dir, e.size, e.modified@);
            kept.push(e);
            assert(listing_view(kept@) =~= before.push(x));
        }
        n += 1;
        assert(rest@ =~= orig.skip(n as int));
    }
    assert(lv.take(n as int) =~= lv);
    let sorted = sort_listing(kept);
    let ghost sv = listing_view(sorted@);
    let ghost want = sv.map_values(|e: (Seq<char>, bool, u64, Seq<char>)| entry_json(e));
    let mut rest = sorted;
    let ghost all = rest@;
    let mut out: Vec<JsonValue> = Vec::new();
    let mut k: usize = 0;
    assert(all.len() == rest.len());
    while rest.len() > 0
        invariant
            k <= all.len() <= usize::MAX,
            rest@ == all.skip(k as int),
            sv == listing_view(all),
            want == sv.map_values(|e: (Seq<char>, bool, u64, Seq<char>)| entry_json(e)),
            items_view(out@) == want.take(k as int),
        decreases rest.len(),
    {
        let e = rest.remove(0);
        assert(e == all[k as int]);
        let v = entry_value(e);
        let ghost before = items_view(out@);
        out.push(v);
        assert(items_view(out@) =~= before.push(want[k as int]));
        assert(want.take(k + 1) =~= want.take(k as int).push(want[k as int]));
        k += 1;
        assert(rest@ =~= all.skip(k as int));
    }
    assert(want.take(k as int) =~= want);
    proof {
        lemma_array_view(out);
    }
    let es = vec![(owned("entries"), JsonValue::Array(out)), (owned("path"), JsonValue::Str(owned(path)))];
    proof {
        lemma_object_view(es);
    }
    assert(members_view(es@) =~= listing_json(path@, lv)->Object_0);
    JsonValue::Object(es)
}

// ---------------------------------------------------------------------------
// Reads, metadata, previews and downloads
// ---------------------------------------------------------------------------

/// A file to read or download must exist (404) and be a file (400); the
/// messages name it as `shown`.
pub fn check_readable_file(shown: &str, exists: bool, is_file: bool) -> (r: Result<(), ApiError>)
    ensures
        !exists ==> (r matches Err(e) && e.status == 404 && e.message@ == "file not found: "@
            + shown@),
        exists && !is_file ==> (r matches Err(e) && e.status == 400 && e.message@
            == "not a file: "@ + shown@),
        exists && is_file ==> r is Ok,
{
    if !exists {
        Err(ApiError::not_found(message_with("file not found: ", shown).as_str()))
    } else if !is_file {
        Err(ApiError::new(400, message_with("not a file: ", shown).as_str()))
    } else {
        Ok(())
    }
}

/// The answer to a text read: `{content, language, size}` for UTF-8 text,
/// 415 for anything else.
pub open spec fn text_read(path: Seq<char>, bytes: Seq<u8>, size: u64) -> Result<Json, (u16, Seq<char>)> {
    if valid_utf8(bytes) {
        Ok(
            Json::Object(
                seq![
                    ("content"@, Json::Str(decode_utf8(bytes))),
                    ("language"@, Json::Str(language_of_path(path))),
                    ("size"@, Json::Number(NumberView::PosInt(size))),
                ],
            ),
        )
    } else {
        Err((415, "file is not valid UTF-8 (kind=binary); use native byte load"@))
    }
}

/// Answers a text read of `path`, whose `size` bytes were read as `bytes`.
pub fn text_read_body(path: &str, bytes: Vec<u8>, size: u64) -> (r: Result<JsonValue, ApiError>)
    ensures
        match text_read(path@, bytes@, size) {
            Ok(j) => r matches Ok(v) && v@ == j,
            Err((status, message)) => r matches Err(e) && e.status == status && e.message@
                == message,
        },
{
    if !is_valid_utf8(bytes.as_slice()) {
        return Err(ApiError::new(415, "file is not valid UTF-8 (kind=binary); use native byte load"));
    }
    let content = from_utf8_lossy(bytes.as_slice());
    let es = vec![
        (owned("content"), JsonValue::Str(content)),
        (owned("language"), JsonValue::Str(owned(language_for_path(path)))),
        (owned("size"), JsonValue::Number(JsonNumber::PosInt(size))),
    ];
    proof {
        lemma_object_view(es);
    }
    assert(members_view(es@) =~= text_read(path@, bytes@, size)->Ok_0->Object_0);
    Ok(JsonValue::Object(es))
}

/// The metadata of a file: `{language, mime, previewKind, size}`,
/// `previewKind` being `null` for a file without a document preview.
pub open spec fn file_meta(path: Seq<char>, size: u64) -> Json {
    Json::Object(
        seq![
            ("language"@, Json::Str(language_of_path(path))),
            ("mime"@, Json::Str(mime_of(extension_spec(path)))),
            ("previewKind"@, match document_kind_of(extension_spec(path)) {
                Some(k) => Json::Str(k),
                None => Json::Null,
            }),
            ("size"@, Json::Number(NumberView::PosInt(size))),
        ],
    )
}

/// Answers a metadata request for `path` of `size` bytes.
pub fn file_meta_body(path: &str, size: u64) -> (r: JsonValue)
    ensures
        r@ == file_meta(path@, size),
{
    let kind = match document_preview_kind(path) {
        Some(k) => JsonValue::Str(owned(k)),
        None => JsonValue::Null,
    };
    let es = vec![
        (owned("language"), JsonValue::Str(owned(language_for_path(path)))),
        (owned("mime"), JsonValue::Str(mime_for(path))),
        (owned("previewKind"), kind),
        (owned("size"), JsonValue::Number(JsonNumber::PosInt(size))),
    ];
    proof {
        lemma_object_view(es);
    }
    assert(members_view(es@) =~= file_meta(path@, size)->Object_0);
    JsonValue::Object(es)
}

/// A document preview is refused: 400 for anything but a `.docx`, and 501
/// for a `.docx`, which has no converter here.
pub fn preview_refusal(path: &str) -> (e: ApiError)
    ensures
        extension_spec(path@) != "docx"@ ==> e.status == 400 && e.message@
            == "preview only supported for .docx"@,
        extension_spec(path@) == "docx"@ ==> e.status == 501 && e.message@
            == "docx preview not supported (mammoth is a Node-only library)"@,
{
    if !chars_eq(&extension_of(path), &chars_of("docx")) {
        ApiError::new(400, "preview only supported for .docx")
    } else {
        ApiError::new(501, "docx preview not supported (mammoth is a Node-only library)")
    }
}

/// The `Content-Disposition` of a download: the file's name, or `file`
/// when the path has none.
pub open spec fn download_disposition_spec(path: Seq<char>) -> Seq<char> {
    let name = match path_file_name(path) {
        Some(n) => n,
        None => "file"@,
    };
    "attachment; filename=\""@ + name + "\""@
}

/// The `Content-Disposition` of a download of `path`.
pub fn download_disposition(path: &str) -> (r: String)
    ensures
        r@ == download_disposition_spec(path@),
{
    let name = match file_name_exec(&chars_of(path)) {
        Some(n) => n,
        None => chars_of("file"),
    };
    let mut m = chars_of("attachment; filename=\"");
    append_chars(&mut m, &name);
    append_chars(&mut m, &chars_of("\""));
    string_of(m.as_slice())
}

// ---------------------------------------------------------------------------
// Uploads
// ---------------------------------------------------------------------------

/// The string items of a list.
pub open spec fn string_items(s: Seq<Json>) -> Seq<Seq<char>>
    decreases s.len(),
{
    if s.len() == 0 {
        seq![]
    } else {
        match s.last() {
            Json::Str(x) => string_items(s.drop_last()).push(x),
            _ => string_items(s.drop_last()),
        }
    }
}

/// The file names an upload check names: the string items of `fileNames`
/// when it is a list.
pub open spec fn checked_names(args: Json) -> Seq<Seq<char>> {
    match json_get(args, "fileNames"@) {
        Some(Json::Array(items)) => string_items(items),
        _ => seq![],
    }
}

/// The answer to an upload check: 400 for a bad name, else
/// `{conflicts: [], nonReplaceable: []}`.
pub open spec fn upload_check(args: Json) -> Result<Json, Seq<char>> {
    match upload_names_error(checked_names(args)) {
        Some(m) => Err(m),
        None => Ok(
            Json::Object(
                seq![("conflicts"@, Json::Array(seq![])), ("nonReplaceable"@, Json::Array(seq![]))],
            ),
        ),
    }
}

fn checked_names_exec(args: &JsonValue) -> (r: Vec<String>)
    ensures
        strings_view(r@) == checked_names(args@),
{
    let mut out: Vec<String> = Vec::new();
    match args.get("fileNames") {
        Some(JsonValue::Array(items)) => {
            proof {
                lemma_array_view(*items);
            }
            let ghost iv = items_view(items@);
            for i in 0..items.len()
                invariant
                    iv == items_view(items@),
                    strings_view(out@) == string_items(iv.take(i as int)),
            {
                assert(iv.take(i + 1).drop_last() =~= iv.take(i as int));
                assert(iv.take(i + 1).last() == items@[i as int]@);
                match &items[i] {
                    JsonValue::Str(x) => {
                        let ghost before = strings_view(out@);
                        out.push(owned(x.as_str()));
                        assert(strings_view(out@) =~= before.push(x@));
                    },
                    _ => {},
                }
            }
            assert(iv.take(items.len() as int) =~= iv);
        },
        _ => {},
    }
    out
}

/// Answers an upload check.
pub fn upload_check_body(args: &JsonValue) -> (r: Result<JsonValue, ApiError>)
    ensures
        match upload_check(args@) {
            Ok(j) => r matches Ok(v) && v@ == j,
            Err(m) => r matches Err(e) && e.status == 400 && e.message@ == m,
        },
{
    let names = checked_names_exec(args);
    match validate_upload_file_names(names.as_slice()) {
        Some(m) => Err(ApiError::new(400, m.as_str())),
        None => {
            let empty1: Vec<JsonValue> = Vec::new();
            let empty2: Vec<JsonValue> = Vec::new();
            proof {
                lemma_array_view(empty1);
                lemma_array_view(empty2);
            }
            assert(items_view(empty1@) =~= Seq::<Json>::empty());
            assert(items_view(empty2@) =~= Seq::<Json>::empty());
            let es = vec![
                (owned("conflicts"), JsonValue::Array(empty1)),
                (owned("nonReplaceable"), JsonValue::Array(empty2)),
            ];
            proof {
                lemma_object_view(es);
            }
            assert(members_view(es@) =~= upload_check(args@)->Ok_0->Object_0);
            Ok(JsonValue::Object(es))
        },
    }
}

/// The `conflict` argument of an upload, when it is a string.
pub open spec fn conflict_arg(args: Json) -> Option<Seq<char>> {
    match json_get(args, "conflict"@) {
        Some(Json::Str(s)) => Some(s),
        _ => None,
    }
}

/// The checks of an upload into `dir` (shown as `shown`), in order: it must
/// be a directory (400), name a known conflict strategy (400), and carry a
/// content type (400).
pub fn upload_request(args: &JsonValue, content_type: Option<&str>, shown: &str, is_dir: bool) -> (r:
    Result<UploadConflictStrategy, ApiError>)
    ensures
        !is_dir ==> (r matches Err(e) && e.status == 400 && e.message@ == "not a directory: "@
            + shown@),
        is_dir && strategy_of(conflict_arg(args@)) is None ==> (r matches Err(e) && e.status
            == 400 && e.message@ == "Invalid conflict strategy: "@ + conflict_arg(args@)->0),
        is_dir && strategy_of(conflict_arg(args@)) is Some && content_type is None ==> (
        r matches Err(e) && e.status == 400 && e.message@ == "Content-Type required for upload"@),
        is_dir && strategy_of(conflict_arg(args@)) is Some && content_type is Some ==> r == Ok::<
            UploadConflictStrategy,
            ApiError,
        >(strategy_of(conflict_arg(args@))->0),
{
    if !is_dir {
        return Err(ApiError::new(400, message_with("not a directory: ", shown).as_str()));
    }
    let conflict = match args.get("conflict") {
        Some(JsonValue::Str(s)) => Some(s.as_str()),
        _ => None,
    };
    let strategy = match crate::fs::file_upload::parse_upload_conflict_strategy(conflict) {
        Some(s) => s,
        None => {
            let other = match conflict {
                Some(c) => c,
                None => "error",
            };
            return Err(
                ApiError::new(400, message_with("Invalid conflict strategy: ", other).as_str()),
            );
        },
    };
    match content_type {
        None => Err(ApiError::new(400, "Content-Type required for upload")),
        Some(_) => Ok(strategy),
    }
}

/// The file parts of an upload body: a body that does not parse is
/// refused with its reason, one without file parts too (both 400). `None`
/// for a body with a part that ends before it starts, which the parser
/// cannot slice.
pub fn upload_parts(content_type: &str, body: &[u8]) -> (r: Option<
    Result<Vec<(String, Vec<u8>)>, ApiError>,
>)
    ensures
        r is None <==> multipart_overlaps(content_type@, body@),
        r matches Some(res) ==> match multipart_parts(content_type@, body@) {
            Ok(ps) => if ps.len() == 0 {
                res matches Err(e) && e.status == 400 && e.message@ == "no file parts"@
            } else {
                res matches Ok(v) && parts_view(v@) == ps
            },
            Err(m) => res matches Err(e) && e.status == 400 && e.message@ == "multipart parse: "@
                + m,
        },
{
    match parse_multipart_checked(content_type, body) {
        None => None,
        Some(Err(m)) => Some(
            Err(ApiError::new(400, message_with("multipart parse: ", m.as_str()).as_str())),
        ),
        Some(Ok(ps)) => if ps.len() == 0 {
            Some(Err(ApiError::new(400, "no file parts")))
        } else {
            Some(Ok(ps))
        },
    }
}

/// What an upload has done so far: the names written, the names that
/// conflicted, and how many were skipped.
pub struct UploadProgress {
    pub uploaded: Vec<String>,
    pub conflicts: Vec<String>,
    pub skipped: u32,
}

impl UploadProgress {
    /// Nothing done yet.
    pub fn new() -> (p: UploadProgress)
        ensures
            p.uploaded@.len() == 0,
            p.conflicts@.len() == 0,
            p.skipped == 0,
    {
        UploadProgress { uploaded: Vec::new(), conflicts: Vec::new(), skipped: 0 }
    }

    /// Decides on the next part, `name`, whose target exists (`target_exists`): it is
    /// written unless it exists and the strategy is `error` (a conflict) or
    /// `skip` (counted).
    pub fn decide(&mut self, name: &str, target_exists: bool, strategy: UploadConflictStrategy) -> (write:
        bool)
        requires
            old(self).skipped < u32::MAX,
        ensures
            write == (!target_exists || strategy is Overwrite),
            final(self).uploaded@ == old(self).uploaded@,
            target_exists && strategy is Error ==> strings_view(
                final(self).conflicts@,
            ) == strings_view(old(self).conflicts@).push(name@) && final(self).skipped == old(
                self,
            ).skipped,
            target_exists && strategy is Skip ==> final(self).conflicts@ == old(
                self,
            ).conflicts@ && final(self).skipped == old(self).skipped + 1,
            !(target_exists && !(strategy is Overwrite)) ==> final(self).conflicts@
                == old(self).conflicts@ && final(self).skipped == old(self).skipped,
    {
        if target_exists {
            match strategy {
                UploadConflictStrategy::Error => {
                    let ghost before = strings_view(self.conflicts@);
                    self.conflicts.push(owned(name));
                    assert(strings_view(self.conflicts@) =~= before.push(name@));
                    return false;
                },
                UploadConflictStrategy::Skip => {
                    self.skipped = self.skipped + 1;
                    return false;
                },
                UploadConflictStrategy::Overwrite => {},
            }
        }
        true
    }

    /// Records that `name` was written.
    pub fn written(&mut self, name: &str)
        ensures
            strings_view(final(self).uploaded@) == strings_view(old(self).uploaded@).push(name@),
            final(self).conflicts@ == old(self).conflicts@,
            final(self).skipped == old(self).skipped,
    {
        let ghost before = strings_view(self.uploaded@);
        self.uploaded.push(owned(name));
        assert(strings_view(self.uploaded@) =~= before.push(name@));
    }

    /// The answer to the upload: 409 with `{conflicts, error: "conflict",
    /// nonReplaceable: []}` when any name conflicted, else 200 with
    /// `{skipped, uploaded}`.
    pub fn response(&self) -> (r: (u16, JsonValue))
        ensures
            self.conflicts@.len() > 0 ==> r.0 == 409 && r.1@ == Json::Object(
                seq![
                    ("conflicts"@, string_array(strings_view(self.conflicts@))),
                    ("error"@, Json::Str("conflict"@)),
                    ("nonReplaceable"@, Json::Array(seq![])),
                ],
            ),
            self.conflicts@.len() == 0 ==> r.0 == 200 && r.1@ == Json::Object(
                seq![
                    ("skipped"@, Json::Number(NumberView::PosInt(self.skipped as u64))),
                    ("uploaded"@, string_array(strings_view(self.uploaded@))),
                ],
            ),
    {
        if self.conflicts.len() > 0 {
            let empty: Vec<JsonValue> = Vec::new();
            proof {
                lemma_array_view(empty);
            }
            assert(items_view(empty@) =~= Seq::<Json>::empty());
            let es = vec![
                (owned("conflicts"), string_array_exec(&self.conflicts)),
                (owned("error"), JsonValue::Str(owned("conflict"))),
                (owned("nonReplaceable"), JsonValue::Array(empty)),
            ];
            proof {
                lemma_object_view(es);
            }
            assert(members_view(es@) =~= seq![
                ("conflicts"@, string_array(strings_view(self.conflicts@))),
                ("error"@, Json::Str("conflict"@)),
                ("nonReplaceable"@, Json::Array(seq![])),
            ]);
            (409, JsonValue::Object(es))
        } else {
            let es = vec![
                (owned("skipped"), JsonValue::Number(JsonNumber::PosInt(self.skipped as u64))),
                (owned("uploaded"), string_array_exec(&self.uploaded)),
            ];
            proof {
                lemma_object_view(es);
            }
            assert(members_view(es@) =~= seq![
                ("skipped"@, Json::Number(NumberView::PosInt(self.skipped as u64))),
                ("uploaded"@, string_array(strings_view(self.uploaded@))),
            ]);
            (200, JsonValue::Object(es))
        }
    }
}

} // verus!
