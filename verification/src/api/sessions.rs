//! Session records: the messages they carry, the entry that names a
//! session, and the header rewrite that keeps a deleted session's children
//! attached.

use vstd::prelude::*;
use crate::api::export::join_str;
use crate::api::types::ApiError;
use crate::git::changes::{lines_exec, lines_of};
use crate::json::{
    find_member, insert_member, json_get, lemma_array_view, lemma_member_index, lemma_object_view,
    items_view, member_index, members_view, object_insert, Json, JsonValue,
};
use crate::text::{
    append_chars, chars_eq, chars_of, string_of, trim, trim_end_char, trim_end_char_exec,
    trim_exec,
};

verus! {

broadcast use vstd::string::group_string_axioms;

/// A content block is a text block when its `type` is `"text"`.
pub open spec fn is_text_block(b: Json) -> bool {
    json_get(b, "type"@) == Some(Json::Str("text"@))
}

/// Index of the first text block.
pub open spec fn first_text_block(bs: Seq<Json>) -> Option<int>
    decreases bs.len(),
{
    if bs.len() == 0 {
        None
    } else if is_text_block(bs[0]) {
        Some(0)
    } else {
        match first_text_block(bs.drop_first()) {
            Some(i) => Some(i + 1),
            None => None,
        }
    }
}

/// The first text of a user message's content: the content itself when it
/// is a string; for a list of blocks, the `text` of the first text block
/// when that is a string; else empty.
pub open spec fn first_text(content: Json) -> Seq<char> {
    match content {
        Json::Str(s) => s,
        Json::Array(bs) => match first_text_block(bs) {
            Some(i) => match json_get(bs[i], "text"@) {
                Some(Json::Str(t)) => t,
                _ => seq![],
            },
            None => seq![],
        },
        _ => seq![],
    }
}

fn is_text_block_exec(b: &JsonValue) -> (r: bool)
    ensures
        r == is_text_block(b@),
{
    match b.get("type") {
        Some(JsonValue::Str(t)) => chars_eq(&chars_of(t.as_str()), &chars_of("text")),
        _ => false,
    }
}

/// The first text of a user message's content.
pub fn user_first_text(content: &JsonValue) -> (r: String)
    ensures
        r@ == first_text(content@),
{
    match content {
        JsonValue::Str(s) => string_of(chars_of(s.as_str()).as_slice()),
        JsonValue::Array(blocks) => {
            proof {
                lemma_array_view(*blocks);
            }
            let ghost bv = items_view(blocks@);
            let mut i: usize = 0;
            assert(bv.skip(0) =~= bv);
            while i < blocks.len()
                invariant
                    i <= blocks.len(),
                    bv == items_view(blocks@),
                    content@ == Json::Array(bv),
                    first_text_block(bv) == match first_text_block(bv.skip(i as int)) {
                        Some(k) => Some(k + i),
                        None => None,
                    },
                decreases blocks.len() - i,
            {
                assert(bv.skip(i as int)[0] == blocks@[i as int]@);
                assert(bv.skip(i as int).drop_first() =~= bv.skip(i + 1));
                if is_text_block_exec(&blocks[i]) {
                    assert(first_text_block(bv.skip(i as int)) == Some(0int));
                    assert(first_text_block(bv) == Some(i as int));
                    assert(bv[i as int] == blocks@[i as int]@);
                    assert(content@ == Json::Array(bv));
                    let r = match blocks[i].get("text") {
                        Some(JsonValue::Str(t)) => string_of(chars_of(t.as_str()).as_slice()),
                        _ => String::new(),
                    };
                    assert(r@ == match json_get(bv[i as int], "text"@) {
                        Some(Json::Str(t)) => t,
                        _ => seq![],
                    });
                    return r;
                }
                i += 1;
            }
            String::new()
        },
        _ => String::new(),
    }
}


/// The header of a child session once its parent is deleted: its
/// `branchedFrom` points at the grandparent, or is removed when there is
/// none; `None` for a header that is not an object (left as it is).
pub open spec fn reparented(header: Json, grandparent: Option<Seq<char>>) -> Option<Json> {
    match header {
        Json::Object(es) => Some(
            Json::Object(
                match grandparent {
                    Some(g) => insert_member(es, "branchedFrom"@, Json::Str(g)),
                    None => match member_index(es, "branchedFrom"@) {
                        Some(i) => es.remove(i),
                        None => es,
                    },
                },
            ),
        ),
        _ => None,
    }
}

fn owned(s: &str) -> (r: String)
    ensures
        r@ == s@,
{
    string_of(chars_of(s).as_slice())
}

/// Rewrites a child session's header for the deletion of its parent.
pub fn reparented_header(header: JsonValue, grandparent: Option<&str>) -> (r: Option<JsonValue>)
    ensures
        match reparented(
            header@,
            match grandparent {
                Some(g) => Some(g@),
                None => None,
            },
        ) {
            Some(h) => r matches Some(x) && x@ == h,
            None => r is None,
        },
{
    match header {
        JsonValue::Object(es) => {
            proof {
                lemma_object_view(es);
            }
            let ghost before = members_view(es@);
            let mut es = es;
            match grandparent {
                Some(g) => {
                    object_insert(&mut es, owned("branchedFrom"), JsonValue::Str(owned(g)));
                },
                None => {
                    match find_member(&es, "branchedFrom") {
                        Some(i) => {
                            proof {
                                lemma_member_index(before, "branchedFrom"@);
                            }
                            let _ = es.remove(i);
                            assert(members_view(es@) =~= before.remove(i as int));
                        },
                        None => {},
                    }
                },
            }
            proof {
                lemma_object_view(es);
            }
            Some(JsonValue::Object(es))
        },
        _ => None,
    }
}

/// A session file with its first line replaced: the new line, then the
/// other lines joined with `\n` without trailing newlines, then `\n`.
pub open spec fn with_first_line(new_line: Seq<char>, content: Seq<char>) -> Seq<char> {
    new_line + seq!['\n'] + trim_end_char(join_str(after_first(lines_of(content)), seq!['\n']), '\n')
        + seq!['\n']
}

/// The lines after the first (none for no lines).
pub open spec fn after_first(ls: Seq<Seq<char>>) -> Seq<Seq<char>> {
    if ls.len() == 0 {
        ls
    } else {
        ls.skip(1)
    }
}

/// Replaces the first line of a session file's content.
pub fn replace_first_line(new_line: &str, content: &str) -> (r: String)
    ensures
        r@ == with_first_line(new_line@, content@),
{
    let lines = lines_exec(&chars_of(content));
    let ghost lv = lines@.map_values(|v: Vec<char>| v@);
    let ghost tail = after_first(lv);
    let mut rest: Vec<char> = Vec::new();
    if lines.len() > 1 {
        let mut i: usize = 1;
        assert(tail.take(0) =~= Seq::<Seq<char>>::empty());
        while i < lines.len()
            invariant
                1 <= i <= lines.len(),
                lv == lines@.map_values(|v: Vec<char>| v@),
                tail == lv.skip(1),
                rest@ == join_str(tail.take(i - 1), seq!['\n']),
            decreases lines.len() - i,
        {
            let ghost prev = rest@;
            if i > 1 {
                rest.push('\n');
            }
            append_chars(&mut rest, &lines[i]);
            assert(tail[i - 1] == lines@[i as int]@);
            assert(tail.take(i as int).drop_last() =~= tail.take(i - 1));
            if i == 1 {
                assert(tail.take(1) =~= seq![tail[0]]);
                assert(rest@ =~= tail[0]);
            } else {
                assert(rest@ =~= prev + seq!['\n'] + tail[i - 1]);
            }
            i += 1;
        }
        assert(tail.take(lines.len() - 1) =~= tail);
    } else {
        assert(tail =~= Seq::<Seq<char>>::empty());
    }
    let trimmed = trim_end_char_exec(&rest, '\n');
    let mut out = chars_of(new_line);
    out.push('\n');
    append_chars(&mut out, &trimmed);
    out.push('\n');
    string_of(out.as_slice())
}

/// A record is a message entry when its `type` is `"message"`.
pub open spec fn is_message_entry(e: Json) -> bool {
    json_get(e, "type"@) == Some(Json::Str("message"@))
}

/// The `message` members of the message entries, in order.
pub open spec fn session_messages_spec(es: Seq<Json>) -> Seq<Json>
    decreases es.len(),
{
    if es.len() == 0 {
        seq![]
    } else {
        let prev = session_messages_spec(es.drop_last());
        let e = es.last();
        if is_message_entry(e) && json_get(e, "message"@) is Some {
            prev.push(json_get(e, "message"@)->0)
        } else {
            prev
        }
    }
}

/// The messages of a session's records: the `message` of each record whose
/// `type` is `"message"`.
pub fn session_messages(entries: Vec<JsonValue>) -> (r: Vec<JsonValue>)
    ensures
        items_view(r@) == session_messages_spec(items_view(entries@)),
{
    let ghost orig = entries@;
    let ghost ev = items_view(orig);
    let mut rest = entries;
    let mut out: Vec<JsonValue> = Vec::new();
    let mut n: usize = 0;
    assert(orig.len() == rest.len());
    assert(ev.take(0) =~= Seq::<Json>::empty());
    while rest.len() > 0
        invariant
            n <= orig.len() <= usize::MAX,
            rest@ == orig.skip(n as int),
            ev == items_view(orig),
            items_view(out@) == session_messages_spec(ev.take(n as int)),
        decreases rest.len(),
    {
        let e = rest.remove(0);
        assert(e == orig[n as int]);
        let ghost before = items_view(out@);
        assert(ev.take(n + 1).drop_last() =~= ev.take(n as int));
        assert(ev.take(n + 1).last() == e@);
        let is_message = match e.get("type") {
            Some(JsonValue::Str(t)) => chars_eq(&chars_of(t.as_str()), &chars_of("message")),
            _ => false,
        };
        if is_message {
            match e {
                JsonValue::Object(es) => {
                    proof {
                        lemma_object_view(es);
                        lemma_member_index(members_view(es@), "message"@);
                    }
                    match find_member(&es, "message") {
                        Some(j) => {
                            let ghost mv = members_view(es@);
                            let mut es = es;
                            let (_, m) = es.remove(j);
                            assert(mv[j as int].1 == m@);
                            out.push(m);
                            assert(items_view(out@) =~= before.push(m@));
                        },
                        None => {},
                    }
                },
                _ => {},
            }
        }
        n += 1;
        assert(rest@ =~= orig.skip(n as int));
    }
    assert(ev.take(n as int) =~= ev);
    out
}

/// The record that names a session: `{id, name, parentId, timestamp,
/// type: "session_info"}`, its parent the header's leaf when it has one,
/// else the header itself.
pub open spec fn session_info_record(
    entry_id: Seq<char>,
    leaf_id: Option<Seq<char>>,
    header_id: Seq<char>,
    timestamp: Seq<char>,
    title: Seq<char>,
) -> Json {
    Json::Object(
        seq![
            ("id"@, Json::Str(entry_id)),
            ("name"@, Json::Str(title)),
            ("parentId"@, Json::Str(
                match leaf_id {
                    Some(l) => l,
                    None => header_id,
                },
            )),
            ("timestamp"@, Json::Str(timestamp)),
            ("type"@, Json::Str("session_info"@)),
        ],
    )
}

spec fn parent_view_of(leaf_id: Option<Seq<char>>, header_id: Seq<char>) -> Seq<char> {
    match leaf_id {
        Some(l) => l,
        None => header_id,
    }
}

/// Builds the record that names a session.
pub fn session_info_entry(
    entry_id: &str,
    leaf_id: Option<&str>,
    header_id: &str,
    timestamp: &str,
    name: &str,
) -> (r: JsonValue)
    ensures
        r@ == session_info_record(
            entry_id@,
            match leaf_id {
                Some(l) => Some(l@),
                None => None,
            },
            header_id@,
            timestamp@,
            name@,
        ),
{
    let parent = match leaf_id {
        Some(l) => owned(l),
        None => owned(header_id),
    };
    let es = vec![
        (owned("id"), JsonValue::Str(owned(entry_id))),
        (owned("name"), JsonValue::Str(owned(name))),
        (owned("parentId"), JsonValue::Str(parent)),
        (owned("timestamp"), JsonValue::Str(owned(timestamp))),
        (owned("type"), JsonValue::Str(owned("session_info"))),
    ];
    let ghost lv = match leaf_id {
        Some(l) => Some(l@),
        None => None,
    };
    let ghost expected = seq![
        ("id"@, Json::Str(entry_id@)),
        ("name"@, Json::Str(name@)),
        ("parentId"@, Json::Str(parent_view_of(lv, header_id@))),
        ("timestamp"@, Json::Str(timestamp@)),
        ("type"@, Json::Str("session_info"@)),
    ];
    proof {
        lemma_object_view(es);
    }
    assert(members_view(es@) =~= expected);
    assert(session_info_record(entry_id@, lv, header_id@, timestamp@, name@)->Object_0 =~= expected);
    JsonValue::Object(es)
}

/// A generated session title, trimmed; an empty one is an error (500).
pub fn generated_title(title: &str) -> (r: Result<String, ApiError>)
    ensures
        trim(title@).len() == 0 ==> (r matches Err(e) && e.status == 500 && e.message@
            == "generated title is empty"@),
        trim(title@).len() > 0 ==> (r matches Ok(t) && t@ == trim(title@)),
{
    let t = trim_exec(&chars_of(title));
    if t.len() == 0 {
        Err(ApiError::internal("generated title is empty"))
    } else {
        Ok(string_of(t.as_slice()))
    }
}

} // verus!
