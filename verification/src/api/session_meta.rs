//! A session's header line and the summary (`info`) that the session
//! endpoints answer with.

use vstd::prelude::*;
use crate::api::export::last_entry_id;
use crate::api::export::leaf_id;
use crate::api::sessions::{first_text, is_message_entry, user_first_text};
use crate::json::{
    items_view, json_get, lemma_array_view, lemma_object_view, members_view, Json, JsonNumber, JsonValue, NumberView,
};
use crate::api::commands::{str_arg, str_arg_spec};
use crate::api::export::path_file_name;
use crate::api::types::ApiError;
use crate::api::files::file_name_exec;
use crate::text::{
    append_chars, chars_eq, chars_of, decimal, decimal_u64_exec, lemma_rfind_char, rfind_char, rfind_char_exec, string_of, sub_vec,
};

verus! {

broadcast use vstd::string::group_string_axioms;

/// A session header: the first line of a session file.
#[derive(Debug, Clone)]
pub struct SessionHeader {
    pub id: String,
    pub cwd: String,
    pub timestamp: String,
    pub provider: Option<String>,
    pub model_id: Option<String>,
    pub leaf_id: Option<String>,
    pub branched_from: Option<String>,
}

/// The view of a session header.
pub struct HeaderView {
    pub id: Seq<char>,
    pub cwd: Seq<char>,
    pub timestamp: Seq<char>,
    pub provider: Option<Seq<char>>,
    pub model_id: Option<Seq<char>>,
    pub leaf_id: Option<Seq<char>>,
    pub branched_from: Option<Seq<char>>,
}

pub open spec fn text_view(o: Option<String>) -> Option<Seq<char>> {
    match o {
        Some(s) => Some(s@),
        None => None,
    }
}

/// The view of an optional text argument.
pub open spec fn str_view(o: Option<&str>) -> Option<Seq<char>> {
    match o {
        Some(s) => Some(s@),
        None => None,
    }
}

impl View for SessionHeader {
    type V = HeaderView;

    open spec fn view(&self) -> HeaderView {
        HeaderView {
            id: self.id@,
            cwd: self.cwd@,
            timestamp: self.timestamp@,
            provider: text_view(self.provider),
            model_id: text_view(self.model_id),
            leaf_id: text_view(self.leaf_id),
            branched_from: text_view(self.branched_from),
        }
    }
}

/// A text member that defaults to empty: `None` when it is there and not a
/// string.
pub open spec fn text_or_empty(v: Json, key: Seq<char>) -> Option<Seq<char>> {
    match json_get(v, key) {
        None => Some(seq![]),
        Some(Json::Str(s)) => Some(s),
        _ => None,
    }
}

/// An optional text member (missing or `null` is absent): `None` when it is
/// there and neither `null` nor a string.
pub open spec fn optional_text(v: Json, key: Seq<char>) -> Option<Option<Seq<char>>> {
    match json_get(v, key) {
        None => Some(None),
        Some(Json::Null) => Some(None),
        Some(Json::Str(s)) => Some(Some(s)),
        _ => None,
    }
}

/// The header read from the first record of a session file: its `type` is
/// `"session"` and its `id` a string; `cwd` and `timestamp` default to
/// empty; `provider`, `modelId`, `leafId` and `branchedFrom` are optional.
/// A member of the wrong type refuses the whole header.
pub open spec fn header_of(v: Json) -> Option<HeaderView> {
    if json_get(v, "type"@) != Some(Json::Str("session"@)) {
        None
    } else {
        match (
            json_get(v, "id"@),
            text_or_empty(v, "cwd"@),
            text_or_empty(v, "timestamp"@),
            optional_text(v, "provider"@),
            optional_text(v, "modelId"@),
            optional_text(v, "leafId"@),
            optional_text(v, "branchedFrom"@),
        ) {
            (Some(Json::Str(id)), Some(cwd), Some(timestamp), Some(provider), Some(model_id), Some(
                leaf_id,
            ), Some(branched_from)) => Some(
                HeaderView { id, cwd, timestamp, provider, model_id, leaf_id, branched_from },
            ),
            _ => None,
        }
    }
}

fn text_or_empty_exec(v: &JsonValue, key: &str) -> (r: Option<String>)
    ensures
        text_view(r) == text_or_empty(v@, key@),
{
    match v.get(key) {
        None => Some(String::new()),
        Some(JsonValue::Str(s)) => Some(string_of(chars_of(s.as_str()).as_slice())),
        _ => None,
    }
}

fn optional_text_exec(v: &JsonValue, key: &str) -> (r: Option<Option<String>>)
    ensures
        match r {
            Some(o) => optional_text(v@, key@) == Some(text_view(o)),
            None => optional_text(v@, key@) is None,
        },
{
    match v.get(key) {
        None => Some(None),
        Some(JsonValue::Null) => Some(None),
        Some(JsonValue::Str(s)) => Some(Some(string_of(chars_of(s.as_str()).as_slice()))),
        _ => None,
    }
}

/// Reads a session header from the first record of a session file.
pub fn session_header(v: &JsonValue) -> (r: Option<SessionHeader>)
    ensures
        match r {
            Some(h) => header_of(v@) == Some(h@),
            None => header_of(v@) is None,
        },
{
    let is_session = match v.get("type") {
        Some(JsonValue::Str(t)) => chars_eq(&chars_of(t.as_str()), &chars_of("session")),
        _ => false,
    };
    if !is_session {
        return None;
    }
    let id = match v.get("id") {
        Some(JsonValue::Str(s)) => string_of(chars_of(s.as_str()).as_slice()),
        _ => return None,
    };
    let cwd = match text_or_empty_exec(v, "cwd") {
        Some(s) => s,
        None => return None,
    };
    let timestamp = match text_or_empty_exec(v, "timestamp") {
        Some(s) => s,
        None => return None,
    };
    let provider = match optional_text_exec(v, "provider") {
        Some(o) => o,
        None => return None,
    };
    let model_id = match optional_text_exec(v, "modelId") {
        Some(o) => o,
        None => return None,
    };
    let leaf_id = match optional_text_exec(v, "leafId") {
        Some(o) => o,
        None => return None,
    };
    let branched_from = match optional_text_exec(v, "branchedFrom") {
        Some(o) => o,
        None => return None,
    };
    Some(SessionHeader { id, cwd, timestamp, provider, model_id, leaf_id, branched_from })
}

/// The leaf a session is shown at: the header's `leafId`, else the `id` of
/// the last entry that has one.
pub open spec fn shown_leaf(h: HeaderView, es: Seq<Json>) -> Option<Seq<char>> {
    match h.leaf_id {
        Some(l) => Some(l),
        None => leaf_id(es),
    }
}

/// The leaf a session is shown at.
pub fn session_leaf_id(header: &SessionHeader, entries: &Vec<JsonValue>) -> (r: Option<String>)
    ensures
        text_view(r) == shown_leaf(header@, items_view(entries@)),
{
    match &header.leaf_id {
        Some(l) => Some(string_of(chars_of(l.as_str()).as_slice())),
        None => last_entry_id(entries),
    }
}

/// An entry that the summary counts as a message: its `type` is `message`,
/// `compaction`, `branch_summary` or `custom`.
pub open spec fn is_counted_entry(e: Json) -> bool {
    match json_get(e, "type"@) {
        Some(Json::Str(t)) => t == "message"@ || t == "compaction"@ || t == "branch_summary"@ || t
            == "custom"@,
        _ => false,
    }
}

/// How many entries the summary counts as messages.
pub open spec fn counted_entries(es: Seq<Json>) -> nat
    decreases es.len(),
{
    if es.len() == 0 {
        0
    } else {
        counted_entries(es.drop_last()) + if is_counted_entry(es.last()) {
            1nat
        } else {
            0nat
        }
    }
}

/// Index of the first message entry.
pub open spec fn first_message_entry(es: Seq<Json>) -> Option<int>
    decreases es.len(),
{
    if es.len() == 0 {
        None
    } else if is_message_entry(es[0]) {
        Some(0)
    } else {
        match first_message_entry(es.drop_first()) {
            Some(i) => Some(i + 1),
            None => None,
        }
    }
}

/// The first text of the first message entry when that message is the
/// user's; `(no messages)` when there is none or it is empty.
pub open spec fn summary_first_message(es: Seq<Json>) -> Seq<char> {
    let t = match first_message_entry(es) {
        Some(i) => match json_get(es[i], "message"@) {
            Some(m) => if json_get(m, "role"@) == Some(Json::Str("user"@)) {
                match json_get(m, "content"@) {
                    Some(c) => first_text(c),
                    None => seq![],
                }
            } else {
                seq![]
            },
            None => seq![],
        },
        None => seq![],
    };
    if t.len() > 0 {
        t
    } else {
        "(no messages)"@
    }
}

/// Index of the last `session_info` entry.
pub open spec fn last_info_entry(es: Seq<Json>) -> Option<int>
    decreases es.len(),
{
    if es.len() == 0 {
        None
    } else if json_get(es.last(), "type"@) == Some(Json::Str("session_info"@)) {
        Some(es.len() - 1)
    } else {
        last_info_entry(es.drop_last())
    }
}

/// The name the last `session_info` entry gives, when it is a string.
pub open spec fn summary_name(es: Seq<Json>) -> Option<Seq<char>> {
    match last_info_entry(es) {
        Some(i) => match json_get(es[i], "name"@) {
            Some(Json::Str(n)) => Some(n),
            _ => None,
        },
        None => None,
    }
}

/// The parent session's id: the file stem of `branchedFrom`, when there is
/// a non-empty one.
pub open spec fn parent_session_id(stem: Option<Seq<char>>) -> Option<Seq<char>> {
    match stem {
        Some(s) => if s.len() > 0 {
            Some(s)
        } else {
            None
        },
        None => None,
    }
}

/// The summary of a session (members by name): `created` and `projectRoot`
/// from the header, `modified` the file's time or else the header's,
/// `messageCount` the counted entries, `firstMessage`, and `name` and
/// `parentSessionId` when there are such.
pub open spec fn session_summary(
    path: Seq<char>,
    h: HeaderView,
    es: Seq<Json>,
    mtime: Option<Seq<char>>,
    stem: Option<Seq<char>>,
) -> Json {
    let base = seq![
        ("created"@, Json::Str(h.timestamp)),
        ("cwd"@, Json::Str(h.cwd)),
        ("firstMessage"@, Json::Str(summary_first_message(es))),
        ("id"@, Json::Str(h.id)),
        ("messageCount"@, Json::Number(NumberView::PosInt(counted_entries(es) as u64))),
        ("modified"@, Json::Str(
            match mtime {
                Some(m) => m,
                None => h.timestamp,
            },
        )),
    ];
    let named = match summary_name(es) {
        Some(n) => base.push(("name"@, Json::Str(n))),
        None => base,
    };
    let parented = match parent_session_id(stem) {
        Some(p) => named.push(("parentSessionId"@, Json::Str(p))),
        None => named,
    };
    Json::Object(parented + seq![("path"@, Json::Str(path)), ("projectRoot"@, Json::Str(h.cwd))])
}

fn type_is(e: &JsonValue, lit: &str) -> (b: bool)
    ensures
        b == (json_get(e@, "type"@) == Some(Json::Str(lit@))),
{
    match e.get("type") {
        Some(JsonValue::Str(t)) => chars_eq(&chars_of(t.as_str()), &chars_of(lit)),
        _ => false,
    }
}

fn count_entries(entries: &Vec<JsonValue>) -> (n: u64)
    ensures
        n == counted_entries(items_view(entries@)),
{
    let ghost ev = items_view(entries@);
    let mut n: u64 = 0;
    assert(ev.take(0) =~= Seq::<Json>::empty());
    for i in 0..entries.len()
        invariant
            ev == items_view(entries@),
            n == counted_entries(ev.take(i as int)),
            n <= i,
            entries.len() <= usize::MAX,
    {
        assert(ev.take(i + 1).drop_last() =~= ev.take(i as int));
        assert(ev.take(i + 1).last() == entries@[i as int]@);
        if type_is(&entries[i], "message") || type_is(&entries[i], "compaction") || type_is(
            &entries[i],
            "branch_summary",
        ) || type_is(&entries[i], "custom") {
            n = n + 1;
        }
    }
    assert(ev.take(entries.len() as int) =~= ev);
    n
}

fn first_message_index(entries: &Vec<JsonValue>) -> (r: Option<usize>)
    ensures
        match r {
            Some(k) => k < entries.len() && first_message_entry(items_view(entries@)) == Some(
                k as int,
            ),
            None => first_message_entry(items_view(entries@)) is None,
        },
{
    let ghost ev = items_view(entries@);
    let mut i: usize = 0;
    assert(ev.skip(0) =~= ev);
    while i < entries.len()
        invariant
            i <= entries.len(),
            ev == items_view(entries@),
            first_message_entry(ev) == match first_message_entry(ev.skip(i as int)) {
                Some(k) => Some(k + i),
                None => None,
            },
        decreases entries.len() - i,
    {
        assert(ev.skip(i as int)[0] == entries@[i as int]@);
        assert(ev.skip(i as int).drop_first() =~= ev.skip(i + 1));
        if type_is(&entries[i], "message") {
            assert(first_message_entry(ev.skip(i as int)) == Some(0int));
            return Some(i);
        }
        i += 1;
    }
    assert(ev.skip(entries.len() as int) =~= Seq::<Json>::empty());
    None
}

fn first_message_exec(entries: &Vec<JsonValue>) -> (r: String)
    ensures
        r@ == summary_first_message(items_view(entries@)),
{
    let ghost ev = items_view(entries@);
    let found = first_message_index(entries);
    let text = match found {
        Some(k) => {
            assert(first_message_entry(ev) == Some(k as int));
            assert(ev[k as int] == entries@[k as int]@);
            match entries[k].get("message") {
                Some(m) => {
                    let is_user = match m.get("role") {
                        Some(JsonValue::Str(r)) => chars_eq(&chars_of(r.as_str()), &chars_of("user")),
                        _ => false,
                    };
                    if is_user {
                        match m.get("content") {
                            Some(c) => user_first_text(c),
                            None => String::new(),
                        }
                    } else {
                        String::new()
                    }
                },
                None => String::new(),
            }
        },
        None => String::new(),
    };
    if chars_of(text.as_str()).len() > 0 {
        text
    } else {
        string_of(chars_of("(no messages)").as_slice())
    }
}

fn name_exec(entries: &Vec<JsonValue>) -> (r: Option<String>)
    ensures
        text_view(r) == summary_name(items_view(entries@)),
{
    let ghost ev = items_view(entries@);
    let mut k: usize = entries.len();
    assert(ev.take(k as int) =~= ev);
    while k > 0
        invariant
            k <= entries.len(),
            ev == items_view(entries@),
            last_info_entry(ev) == last_info_entry(ev.take(k as int)),
        decreases k,
    {
        assert(ev.take(k as int).drop_last() =~= ev.take(k - 1));
        assert(ev.take(k as int).last() == entries@[k - 1]@);
        if type_is(&entries[k - 1], "session_info") {
            assert(last_info_entry(ev) == Some(k - 1));
            assert(ev[k - 1] == entries@[k - 1]@);
            return match entries[k - 1].get("name") {
                Some(JsonValue::Str(n)) => Some(string_of(chars_of(n.as_str()).as_slice())),
                _ => None,
            };
        }
        k -= 1;
    }
    None
}

fn text_value(s: &str) -> (r: JsonValue)
    ensures
        r@ == Json::Str(s@),
{
    JsonValue::Str(string_of(chars_of(s).as_slice()))
}

fn key(s: &str) -> (r: String)
    ensures
        r@ == s@,
{
    string_of(chars_of(s).as_slice())
}

fn summary_object(
    path: &str,
    header: &SessionHeader,
    entries: &Vec<JsonValue>,
    mtime: Option<&str>,
    stem: Option<&str>,
) -> (r: JsonValue)
    ensures
        r@ == session_summary(path@, header@, items_view(entries@), str_view(mtime), str_view(stem)),
{
    let ghost ev = items_view(entries@);
    let modified = match mtime {
        Some(m) => text_value(m),
        None => text_value(header.timestamp.as_str()),
    };
    let count = count_entries(entries);
    let mut es: Vec<(String, JsonValue)> = vec![
        (key("created"), text_value(header.timestamp.as_str())),
        (key("cwd"), text_value(header.cwd.as_str())),
        (key("firstMessage"), JsonValue::Str(first_message_exec(entries))),
        (key("id"), text_value(header.id.as_str())),
        (key("messageCount"), JsonValue::Number(JsonNumber::PosInt(count))),
        (key("modified"), modified),
    ];
    let ghost mv = match mtime {
        Some(m) => Some(m@),
        None => None,
    };
    let ghost sv = match stem {
        Some(s) => Some(s@),
        None => None,
    };
    let ghost base = seq![
        ("created"@, Json::Str(header@.timestamp)),
        ("cwd"@, Json::Str(header@.cwd)),
        ("firstMessage"@, Json::Str(summary_first_message(ev))),
        ("id"@, Json::Str(header@.id)),
        ("messageCount"@, Json::Number(NumberView::PosInt(counted_entries(ev) as u64))),
        ("modified"@, Json::Str(
            match mv {
                Some(m) => m,
                None => header@.timestamp,
            },
        )),
    ];
    assert(members_view(es@) =~= base);
    let ghost named = match summary_name(ev) {
        Some(n) => base.push(("name"@, Json::Str(n))),
        None => base,
    };
    match name_exec(entries) {
        Some(n) => {
            es.push((key("name"), JsonValue::Str(n)));
        },
        None => {},
    }
    assert(members_view(es@) =~= named);
    let ghost parented = match parent_session_id(sv) {
        Some(p) => named.push(("parentSessionId"@, Json::Str(p))),
        None => named,
    };
    match stem {
        Some(s) => {
            if chars_of(s).len() > 0 {
                es.push((key("parentSessionId"), text_value(s)));
            }
        },
        None => {},
    }
    assert(members_view(es@) =~= parented);
    es.push((key("path"), text_value(path)));
    es.push((key("projectRoot"), text_value(header.cwd.as_str())));
    assert(members_view(es@) =~= parented + seq![
        ("path"@, Json::Str(path@)),
        ("projectRoot"@, Json::Str(header@.cwd)),
    ]);
    proof {
        lemma_object_view(es);
    }
    JsonValue::Object(es)
}

/// `Path::file_stem`: the file name without its last extension; the whole
/// name when it has no `.` but a leading one.
pub open spec fn path_file_stem(p: Seq<char>) -> Option<Seq<char>> {
    match path_file_name(p) {
        None => None,
        Some(n) => match rfind_char(n, '.') {
            Some(i) => if i > 0 {
                Some(n.take(i))
            } else {
                Some(n)
            },
            None => Some(n),
        },
    }
}

/// The file stem of a path.
pub fn file_stem(path: &str) -> (r: Option<String>)
    ensures
        text_view(r) == path_file_stem(path@),
{
    match file_name_exec(&chars_of(path)) {
        None => None,
        Some(n) => {
            proof {
                lemma_rfind_char(n@, '.');
            }
            match rfind_char_exec(&n, '.') {
                Some(i) => if i > 0 {
                    let t = sub_vec(&n, 0, i);
                    assert(t@ =~= n@.take(i as int));
                    Some(string_of(t.as_slice()))
                } else {
                    Some(string_of(n.as_slice()))
                },
                None => Some(string_of(n.as_slice())),
            }
        },
    }
}

/// The stem that names a session's parent: that of its `branchedFrom`.
pub open spec fn parent_stem(h: HeaderView) -> Option<Seq<char>> {
    match h.branched_from {
        Some(b) => path_file_stem(b),
        None => None,
    }
}

/// The summary of a session: `path` as shown, its header and entries, and
/// the file's modification time when it could be read.
pub fn session_summary_value(
    path: &str,
    header: &SessionHeader,
    entries: &Vec<JsonValue>,
    mtime: Option<&str>,
) -> (r: JsonValue)
    ensures
        r@ == session_summary(
            path@,
            header@,
            items_view(entries@),
            str_view(mtime),
            parent_stem(header@),
        ),
{
    let stem = match &header.branched_from {
        Some(b) => file_stem(b.as_str()),
        None => None,
    };
    match &stem {
        Some(s) => summary_object(path, header, entries, mtime, Some(s.as_str())),
        None => summary_object(path, header, entries, mtime, None),
    }
}


/// The `id` argument of a session command: required (400), trimmed.
pub fn session_id_arg(args: &JsonValue) -> (r: Result<String, ApiError>)
    ensures
        str_arg_spec(args@, "id"@).len() == 0 ==> (r matches Err(e) && e.status == 400
            && e.message@ == "id is required"@),
        str_arg_spec(args@, "id"@).len() > 0 ==> (r matches Ok(id) && id@ == str_arg_spec(
            args@,
            "id"@,
        )),
{
    let id = str_arg(args, "id");
    if chars_of(id.as_str()).len() == 0 {
        Err(ApiError::new(400, "id is required"))
    } else {
        Ok(id)
    }
}

/// 404 for a session id that names no session file.
pub fn session_not_found(id: &str) -> (e: ApiError)
    ensures
        e.status == 404,
        e.message@ == "session not found: "@ + id@,
{
    let mut m = chars_of("session not found: ");
    append_chars(&mut m, &chars_of(id));
    ApiError::not_found(string_of(m.as_slice()).as_str())
}

/// The model a session's header names, when both its provider and model
/// id are there and not empty.
pub open spec fn header_model_spec(h: HeaderView) -> Option<(Seq<char>, Seq<char>)> {
    match (h.provider, h.model_id) {
        (Some(p), Some(m)) => if p.len() > 0 && m.len() > 0 {
            Some((p, m))
        } else {
            None
        },
        _ => None,
    }
}

/// The model a session's header names.
pub fn header_model(header: &SessionHeader) -> (r: Option<(String, String)>)
    ensures
        match header_model_spec(header@) {
            Some((p, m)) => r matches Some(pm) && pm.0@ == p && pm.1@ == m,
            None => r is None,
        },
{
    match (&header.provider, &header.model_id) {
        (Some(p), Some(m)) => if chars_of(p.as_str()).len() > 0 && chars_of(m.as_str()).len() > 0 {
            Some((string_of(chars_of(p.as_str()).as_slice()), string_of(chars_of(m.as_str()).as_slice())))
        } else {
            None
        },
        _ => None,
    }
}

/// A session branched from the session file at `parent_path`.
pub fn is_child_session(header: &SessionHeader, parent_path: &str) -> (b: bool)
    ensures
        b == (header@.branched_from == Some(parent_path@)),
{
    match &header.branched_from {
        Some(b) => chars_eq(&chars_of(b.as_str()), &chars_of(parent_path)),
        None => false,
    }
}

/// The answer of a command that succeeded: `{success: true}`.
pub fn success_answer() -> (r: JsonValue)
    ensures
        r@ == Json::Object(seq![("success"@, Json::Bool(true))]),
{
    let es = vec![(key("success"), JsonValue::Bool(true))];
    proof {
        lemma_object_view(es);
    }
    assert(members_view(es@) =~= seq![("success"@, Json::Bool(true))]);
    JsonValue::Object(es)
}


/// The `blockIndex` argument, when it is a non-negative integer.
pub open spec fn block_index_arg(args: Json) -> Option<u64> {
    match json_get(args, "blockIndex"@) {
        Some(Json::Number(NumberView::PosInt(n))) => Some(n),
        _ => None,
    }
}

/// The arguments of a thinking request, checked in order: a valid
/// `blockIndex` (400), then `id` and `entryId` (400).
pub open spec fn thinking_request_spec(args: Json) -> Result<
    (Seq<char>, Seq<char>, u64),
    (u16, Seq<char>),
> {
    match block_index_arg(args) {
        None => Err((400, "Valid blockIndex is required"@)),
        Some(b) => {
            let id = str_arg_spec(args, "id"@);
            let entry_id = str_arg_spec(args, "entryId"@);
            if id.len() == 0 || entry_id.len() == 0 {
                Err((400, "id and entryId are required"@))
            } else {
                Ok((id, entry_id, b))
            }
        },
    }
}

/// Reads the arguments of a thinking request: session id, entry id and
/// block index.
pub fn thinking_request(args: &JsonValue) -> (r: Result<(String, String, u64), ApiError>)
    ensures
        match thinking_request_spec(args@) {
            Ok((id, entry_id, b)) => r matches Ok(t) && t.0@ == id && t.1@ == entry_id && t.2 == b,
            Err((status, message)) => r matches Err(e) && e.status == status && e.message@
                == message,
        },
{
    let b = match args.get("blockIndex") {
        Some(JsonValue::Number(JsonNumber::PosInt(n))) => *n,
        _ => return Err(ApiError::new(400, "Valid blockIndex is required")),
    };
    let id = str_arg(args, "id");
    let entry_id = str_arg(args, "entryId");
    if chars_of(id.as_str()).len() == 0 || chars_of(entry_id.as_str()).len() == 0 {
        return Err(ApiError::new(400, "id and entryId are required"));
    }
    Ok((id, entry_id, b))
}

/// Index of the first entry whose `id` is `id`.
pub open spec fn entry_with_id(es: Seq<Json>, id: Seq<char>) -> Option<int>
    decreases es.len(),
{
    if es.len() == 0 {
        None
    } else if json_get(es[0], "id"@) == Some(Json::Str(id)) {
        Some(0)
    } else {
        match entry_with_id(es.drop_first(), id) {
            Some(i) => Some(i + 1),
            None => None,
        }
    }
}

/// A thinking block of an entry: `{thinking}` (empty when the block has no
/// text), or why there is none (all 404): no such entry, no message, not
/// the assistant's, no content list, no such block, not a thinking block.
pub open spec fn thinking_of(es: Seq<Json>, entry_id: Seq<char>, b: u64) -> Result<Json, Seq<char>> {
    match entry_with_id(es, entry_id) {
        None => Err("entry not found: "@ + entry_id),
        Some(i) => match json_get(es[i], "message"@) {
            None => Err("entry has no message"@),
            Some(m) => if json_get(m, "role"@) != Some(Json::Str("assistant"@)) {
                Err("entry "@ + entry_id + " is not an assistant message"@)
            } else {
                match json_get(m, "content"@) {
                    Some(Json::Array(cs)) => if b < cs.len() {
                        if json_get(cs[b as int], "type"@) != Some(Json::Str("thinking"@)) {
                            Err("block "@ + decimal(b as nat) + " is not a thinking block"@)
                        } else {
                            Ok(
                                Json::Object(
                                    seq![
                                        ("thinking"@, Json::Str(
                                            match json_get(cs[b as int], "thinking"@) {
                                                Some(Json::Str(t)) => t,
                                                _ => seq![],
                                            },
                                        )),
                                    ],
                                ),
                            )
                        }
                    } else {
                        Err("block "@ + decimal(b as nat) + " out of range in entry "@ + entry_id)
                    },
                    _ => Err("entry has no content array"@),
                }
            },
        },
    }
}

fn find_entry(entries: &Vec<JsonValue>, id: &str) -> (r: Option<usize>)
    ensures
        match r {
            Some(k) => k < entries.len() && entry_with_id(items_view(entries@), id@) == Some(
                k as int,
            ),
            None => entry_with_id(items_view(entries@), id@) is None,
        },
{
    let ghost ev = items_view(entries@);
    let mut i: usize = 0;
    assert(ev.skip(0) =~= ev);
    while i < entries.len()
        invariant
            i <= entries.len(),
            ev == items_view(entries@),
            entry_with_id(ev, id@) == match entry_with_id(ev.skip(i as int), id@) {
                Some(k) => Some(k + i),
                None => None,
            },
        decreases entries.len() - i,
    {
        assert(ev.skip(i as int)[0] == entries@[i as int]@);
        assert(ev.skip(i as int).drop_first() =~= ev.skip(i + 1));
        let hit = match entries[i].get("id") {
            Some(JsonValue::Str(x)) => chars_eq(&chars_of(x.as_str()), &chars_of(id)),
            _ => false,
        };
        if hit {
            assert(entry_with_id(ev.skip(i as int), id@) == Some(0int));
            return Some(i);
        }
        i += 1;
    }
    assert(ev.skip(entries.len() as int) =~= Seq::<Json>::empty());
    None
}

fn not_found_with(parts: &Vec<char>) -> (e: ApiError)
    ensures
        e.status == 404 && e.message@ == parts@,
{
    ApiError::not_found(string_of(parts.as_slice()).as_str())
}

/// Answers a thinking request from the session's entries.
pub fn thinking_answer(entries: &Vec<JsonValue>, entry_id: &str, block_index: u64) -> (r: Result<
    JsonValue,
    ApiError,
>)
    ensures
        match thinking_of(items_view(entries@), entry_id@, block_index) {
            Ok(j) => r matches Ok(v) && v@ == j,
            Err(m) => r matches Err(e) && e.status == 404 && e.message@ == m,
        },
{
    let ghost ev = items_view(entries@);
    let k = match find_entry(entries, entry_id) {
        Some(k) => k,
        None => {
            let mut m = chars_of("entry not found: ");
            append_chars(&mut m, &chars_of(entry_id));
            return Err(not_found_with(&m));
        },
    };
    assert(ev[k as int] == entries@[k as int]@);
    let msg = match entries[k].get("message") {
        Some(m) => m,
        None => return Err(ApiError::not_found("entry has no message")),
    };
    let is_assistant = match msg.get("role") {
        Some(JsonValue::Str(r)) => chars_eq(&chars_of(r.as_str()), &chars_of("assistant")),
        _ => false,
    };
    if !is_assistant {
        let mut m = chars_of("entry ");
        append_chars(&mut m, &chars_of(entry_id));
        append_chars(&mut m, &chars_of(" is not an assistant message"));
        return Err(not_found_with(&m));
    }
    let content = match msg.get("content") {
        Some(JsonValue::Array(cs)) => cs,
        _ => return Err(ApiError::not_found("entry has no content array")),
    };
    proof {
        lemma_array_view(*content);
    }
    if block_index >= content.len() as u64 {
        let mut m = chars_of("block ");
        append_chars(&mut m, &decimal_u64_exec(block_index));
        append_chars(&mut m, &chars_of(" out of range in entry "));
        append_chars(&mut m, &chars_of(entry_id));
        return Err(not_found_with(&m));
    }
    let bi = block_index as usize;
    let block = &content[bi];
    assert(items_view(content@)[bi as int] == block@);
    let is_thinking = match block.get("type") {
        Some(JsonValue::Str(t)) => chars_eq(&chars_of(t.as_str()), &chars_of("thinking")),
        _ => false,
    };
    if !is_thinking {
        let mut m = chars_of("block ");
        append_chars(&mut m, &decimal_u64_exec(block_index));
        append_chars(&mut m, &chars_of(" is not a thinking block"));
        return Err(not_found_with(&m));
    }
    let text = match block.get("thinking") {
        Some(JsonValue::Str(t)) => string_of(chars_of(t.as_str()).as_slice()),
        _ => String::new(),
    };
    let es = vec![(key("thinking"), JsonValue::Str(text))];
    proof {
        lemma_object_view(es);
    }
    assert(members_view(es@) =~= thinking_of(ev, entry_id@, block_index)->Ok_0->Object_0);
    Ok(JsonValue::Object(es))
}

/// Whether an export is shown in the browser rather than downloaded: its
/// `inline` argument is the text `1` or the number 1.
pub open spec fn export_inline_spec(args: Json) -> bool {
    match json_get(args, "inline"@) {
        Some(Json::Str(t)) => t == "1"@,
        Some(Json::Number(NumberView::PosInt(n))) => n == 1,
        _ => false,
    }
}

/// Reads the `inline` flag of an export.
pub fn export_inline(args: &JsonValue) -> (b: bool)
    ensures
        b == export_inline_spec(args@),
{
    match args.get("inline") {
        Some(JsonValue::Str(t)) => chars_eq(&chars_of(t.as_str()), &chars_of("1")),
        Some(JsonValue::Number(JsonNumber::PosInt(n))) => *n == 1,
        _ => false,
    }
}

} // verus!
