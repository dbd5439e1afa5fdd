//! The answers of the working-directory endpoints and where sessions are
//! kept by default.

use vstd::prelude::*;
use crate::fs::directory_browser::{
    dir_view, dirs_view, get_parent_directory, parent_directory, BrowsableDirectory,
};
use crate::json::{items_view, lemma_array_view, lemma_object_view, members_view, Json, JsonValue};
use crate::text::{append_chars, chars_of, string_of, trim_end_char, trim_end_char_exec};

verus! {

broadcast use vstd::string::group_string_axioms;

fn owned(s: &str) -> (r: String)
    ensures
        r@ == s@,
{
    string_of(chars_of(s).as_slice())
}

/// Where sessions are kept: `<agent dir>/sessions` when an agent directory
/// is configured (its trailing `/` dropped), else
/// `<home>/.pi/agent/sessions` (home `/` when unknown).
pub open spec fn sessions_root(agent_dir: Option<Seq<char>>, home: Option<Seq<char>>) -> Seq<char> {
    match agent_dir {
        Some(d) => trim_end_char(d, '/') + "/sessions"@,
        None => {
            let h = match home {
                Some(h) => h,
                None => "/"@,
            };
            h + "/.pi/agent/sessions"@
        },
    }
}

/// The default directory of session files.
pub fn default_sessions_root(agent_dir: Option<&str>, home: Option<&str>) -> (r: String)
    ensures
        r@ == sessions_root(
            match agent_dir {
                Some(d) => Some(d@),
                None => None,
            },
            match home {
                Some(h) => Some(h@),
                None => None,
            },
        ),
{
    match agent_dir {
        Some(d) => {
            let mut v = trim_end_char_exec(&chars_of(d), '/');
            append_chars(&mut v, &chars_of("/sessions"));
            string_of(v.as_slice())
        },
        None => {
            let mut v = match home {
                Some(h) => chars_of(h),
                None => chars_of("/"),
            };
            append_chars(&mut v, &chars_of("/.pi/agent/sessions"));
            string_of(v.as_slice())
        },
    }
}

/// A listed directory: `{name, path}`.
pub open spec fn directory_json(d: (Seq<char>, Seq<char>)) -> Json {
    Json::Object(seq![("name"@, Json::Str(d.0)), ("path"@, Json::Str(d.1))])
}

/// The answer of the directory browser: `{directories, parentPath, path}`,
/// `parentPath` being `null` at the root.
pub open spec fn browse_json(path: Seq<char>, dirs: Seq<(Seq<char>, Seq<char>)>, cwd: Seq<char>) -> Json {
    Json::Object(
        seq![
            ("directories"@, Json::Array(
                dirs.map_values(|d: (Seq<char>, Seq<char>)| directory_json(d)),
            )),
            ("parentPath"@, match parent_directory(path, cwd) {
                Some(p) => Json::Str(p),
                None => Json::Null,
            }),
            ("path"@, Json::Str(path)),
        ],
    )
}

/// Answers a browse of the resolved directory `path`, whose
/// subdirectories are `dirs` (`cwd` resolves a relative path).
pub fn browse_answer(path: &str, dirs: &Vec<BrowsableDirectory>, cwd: &str) -> (r: JsonValue)
    ensures
        r@ == browse_json(path@, dirs_view(dirs@), cwd@),
{
    let ghost want = dirs_view(dirs@).map_values(|d: (Seq<char>, Seq<char>)| directory_json(d));
    let mut out: Vec<JsonValue> = Vec::new();
    for i in 0..dirs.len()
        invariant
            want == dirs_view(dirs@).map_values(|d: (Seq<char>, Seq<char>)| directory_json(d)),
            items_view(out@) == want.take(i as int),
    {
        let es = vec![
            (owned("name"), JsonValue::Str(owned(dirs[i].name.as_str()))),
            (owned("path"), JsonValue::Str(owned(dirs[i].path.as_str()))),
        ];
        proof {
            lemma_object_view(es);
        }
        assert(dirs_view(dirs@)[i as int] == dir_view(dirs@[i as int]));
        assert(members_view(es@) =~= want[i as int]->Object_0);
        let ghost before = items_view(out@);
        out.push(JsonValue::Object(es));
        assert(items_view(out@) =~= before.push(want[i as int]));
        assert(want.take(i + 1) =~= want.take(i as int).push(want[i as int]));
    }
    assert(want.take(dirs.len() as int) =~= want);
    proof {
        lemma_array_view(out);
    }
    let parent = match get_parent_directory(path, cwd) {
        Some(p) => JsonValue::Str(p),
        None => JsonValue::Null,
    };
    let es = vec![
        (owned("directories"), JsonValue::Array(out)),
        (owned("parentPath"), parent),
        (owned("path"), JsonValue::Str(owned(path))),
    ];
    proof {
        lemma_object_view(es);
    }
    assert(members_view(es@) =~= browse_json(path@, dirs_view(dirs@), cwd@)->Object_0);
    JsonValue::Object(es)
}

/// The answer to a validated working directory: `{cwd, success: true}`.
pub fn validated_cwd_answer(cwd: &str) -> (r: JsonValue)
    ensures
        r@ == Json::Object(seq![("cwd"@, Json::Str(cwd@)), ("success"@, Json::Bool(true))]),
{
    let es = vec![(owned("cwd"), JsonValue::Str(owned(cwd))), (owned("success"), JsonValue::Bool(true))];
    proof {
        lemma_object_view(es);
    }
    assert(members_view(es@) =~= seq![("cwd"@, Json::Str(cwd@)), ("success"@, Json::Bool(true))]);
    JsonValue::Object(es)
}

/// The answer naming a working directory: `{cwd}`.
pub fn cwd_answer(cwd: &str) -> (r: JsonValue)
    ensures
        r@ == Json::Object(seq![("cwd"@, Json::Str(cwd@))]),
{
    let es = vec![(owned("cwd"), JsonValue::Str(owned(cwd)))];
    proof {
        lemma_object_view(es);
    }
    assert(members_view(es@) =~= seq![("cwd"@, Json::Str(cwd@))]);
    JsonValue::Object(es)
}

} // verus!
