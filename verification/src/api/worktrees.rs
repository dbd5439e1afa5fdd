//! The arguments of the worktree endpoints and how a refused removal is
//! answered.

use vstd::prelude::*;
use crate::api::commands::{str_arg, str_arg_spec};
use crate::api::types::ApiError;
use crate::json::{json_get, lemma_object_view, members_view, Json, JsonValue};
use crate::text::{append_chars, chars_of, find_sub, find_sub_exec, string_of};

verus! {

broadcast use vstd::string::group_string_axioms;

/// The working directory of a worktree request: required (400).
pub fn worktree_cwd_arg(args: &JsonValue) -> (r: Result<String, ApiError>)
    ensures
        str_arg_spec(args@, "cwd"@).len() == 0 ==> (r matches Err(e) && e.status == 400
            && e.message@ == "cwd is required"@),
        str_arg_spec(args@, "cwd"@).len() > 0 ==> (r matches Ok(c) && c@ == str_arg_spec(
            args@,
            "cwd"@,
        )),
{
    let cwd = str_arg(args, "cwd");
    if chars_of(cwd.as_str()).len() == 0 {
        Err(ApiError::new(400, "cwd is required"))
    } else {
        Ok(cwd)
    }
}

/// The arguments of a new worktree: `cwd` and `branch`, both required
/// (400), checked in that order.
pub fn worktree_add_request(args: &JsonValue) -> (r: Result<(String, String), ApiError>)
    ensures
        str_arg_spec(args@, "cwd"@).len() == 0 ==> (r matches Err(e) && e.status == 400
            && e.message@ == "cwd is required"@),
        str_arg_spec(args@, "cwd"@).len() > 0 && str_arg_spec(args@, "branch"@).len() == 0 ==> (
        r matches Err(e) && e.status == 400 && e.message@ == "branch is required"@),
        str_arg_spec(args@, "cwd"@).len() > 0 && str_arg_spec(args@, "branch"@).len() > 0 ==> (
        r matches Ok((c, b)) && c@ == str_arg_spec(args@, "cwd"@) && b@ == str_arg_spec(
            args@,
            "branch"@,
        )),
{
    let cwd = worktree_cwd_arg(args)?;
    let branch = str_arg(args, "branch");
    if chars_of(branch.as_str()).len() == 0 {
        return Err(ApiError::new(400, "branch is required"));
    }
    Ok((cwd, branch))
}

/// The `force` flag of a removal: `true` only when it is the boolean `true`.
pub open spec fn force_arg(args: Json) -> bool {
    json_get(args, "force"@) == Some(Json::Bool(true))
}

/// The arguments of a worktree removal: `cwd` and `path`, both required
/// (400), and `force`.
pub fn worktree_remove_request(args: &JsonValue) -> (r: Result<(String, String, bool), ApiError>)
    ensures
        str_arg_spec(args@, "cwd"@).len() == 0 ==> (r matches Err(e) && e.status == 400
            && e.message@ == "cwd is required"@),
        str_arg_spec(args@, "cwd"@).len() > 0 && str_arg_spec(args@, "path"@).len() == 0 ==> (
        r matches Err(e) && e.status == 400 && e.message@ == "path is required"@),
        str_arg_spec(args@, "cwd"@).len() > 0 && str_arg_spec(args@, "path"@).len() > 0 ==> (
        r matches Ok((c, p, f)) && c@ == str_arg_spec(args@, "cwd"@) && p@ == str_arg_spec(
            args@,
            "path"@,
        ) && f == force_arg(args@)),
{
    let cwd = worktree_cwd_arg(args)?;
    let path = str_arg(args, "path");
    if chars_of(path.as_str()).len() == 0 {
        return Err(ApiError::new(400, "path is required"));
    }
    let force = match args.get("force") {
        Some(JsonValue::Bool(b)) => *b,
        _ => false,
    };
    Ok((cwd, path, force))
}

/// A new worktree is made only from a directory that exists (400).
pub fn check_worktree_dir(cwd: &str, exists: bool) -> (r: Result<(), ApiError>)
    ensures
        exists ==> r is Ok,
        !exists ==> (r matches Err(e) && e.status == 400 && e.message@
            == "Directory does not exist: "@ + cwd@),
{
    if exists {
        Ok(())
    } else {
        let mut m = chars_of("Directory does not exist: ");
        append_chars(&mut m, &chars_of(cwd));
        Err(ApiError::new(400, string_of(m.as_slice()).as_str()))
    }
}

/// git refused to remove a worktree with changes in it.
pub open spec fn is_dirty_refusal(message: Seq<char>) -> bool {
    find_sub(message, "contains modified or untracked files"@) is Some || find_sub(
        message,
        "is dirty"@,
    ) is Some
}

/// The answer to a refused removal: 409 with `{dirty: true, error}` when the
/// worktree has changes (so that the caller can offer to force it), else
/// 400 with `{error}`.
pub open spec fn remove_refusal(message: Seq<char>) -> (u16, Json) {
    if is_dirty_refusal(message) {
        (409, Json::Object(seq![("dirty"@, Json::Bool(true)), ("error"@, Json::Str(message))]))
    } else {
        (400, Json::Object(seq![("error"@, Json::Str(message))]))
    }
}

/// Answers a refused worktree removal.
pub fn worktree_remove_refusal(message: &str) -> (r: (u16, JsonValue))
    ensures
        (r.0, r.1@) == remove_refusal(message@),
{
    let m = chars_of(message);
    let dirty = find_sub_exec(&m, &chars_of("contains modified or untracked files"), 0).is_some()
        || find_sub_exec(&m, &chars_of("is dirty"), 0).is_some();
    let err = ApiError::new(if dirty { 409 } else { 400 }, message);
    if dirty {
        let es = vec![
            (string_of(chars_of("dirty").as_slice()), JsonValue::Bool(true)),
            (string_of(chars_of("error").as_slice()), JsonValue::Str(err.message)),
        ];
        proof {
            lemma_object_view(es);
        }
        assert(members_view(es@) =~= seq![
            ("dirty"@, Json::Bool(true)),
            ("error"@, Json::Str(message@)),
        ]);
        (409, JsonValue::Object(es))
    } else {
        (400, err.error_body())
    }
}

} // verus!
