//! Argument reading and the checks that commands make before they touch
//! the file system.

use vstd::prelude::*;
use crate::api::types::ApiError;
use crate::fs::allowed_roots::strings_view;
use crate::fs::path_security::{is_path_within_roots, within_roots};
use crate::json::{items_view, json_get, lemma_array_view, Json, JsonNumber, JsonValue, NumberView};
use crate::fs::bash_output::{bash_output_path, resolve_bash_output_path, ReadResult};
use crate::json::{lemma_object_view, members_view};
use crate::text::{append_chars, chars_of, decimal, decimal_exec, string_of, trim, trim_exec};

verus! {

broadcast use vstd::string::group_string_axioms;

/// A string argument, trimmed; empty when it is missing or not a string.
pub open spec fn str_arg_spec(args: Json, key: Seq<char>) -> Seq<char> {
    match json_get(args, key) {
        Some(Json::Str(s)) => trim(s),
        _ => seq![],
    }
}

/// Reads a string argument of a command.
pub fn str_arg(args: &JsonValue, key: &str) -> (r: String)
    ensures
        r@ == str_arg_spec(args@, key@),
{
    match args.get(key) {
        Some(JsonValue::Str(s)) => string_of(trim_exec(&chars_of(s.as_str())).as_slice()),
        _ => String::new(),
    }
}

fn message_with(prefix: &str, subject: &str) -> (r: String)
    ensures
        r@ == prefix@ + subject@,
{
    let mut m = chars_of(prefix);
    append_chars(&mut m, &chars_of(subject));
    string_of(m.as_slice())
}

/// The error for a directory that a request names (shown as `shown`): 404
/// when it does not exist, 400 when it is not a directory.
pub open spec fn directory_error(shown: Seq<char>, exists: bool, is_dir: bool) -> Option<
    (u16, Seq<char>),
> {
    if !exists {
        Some((404, "path does not exist: "@ + shown))
    } else if !is_dir {
        Some((400, "not a directory: "@ + shown))
    } else {
        None
    }
}

/// Checks that a requested directory exists and is a directory.
pub fn check_directory(shown: &str, exists: bool, is_dir: bool) -> (r: Result<(), ApiError>)
    ensures
        match directory_error(shown@, exists, is_dir) {
            Some((status, message)) => r matches Err(e) && e.status == status && e.message@
                == message,
            None => r is Ok,
        },
{
    if !exists {
        Err(ApiError::new(404, message_with("path does not exist: ", shown).as_str()))
    } else if !is_dir {
        Err(ApiError::new(400, message_with("not a directory: ", shown).as_str()))
    } else {
        Ok(())
    }
}

/// The checks of a working directory to validate: it must be given (400),
/// exist (404) and be a directory (400); the messages name it as given.
pub fn check_cwd_to_validate(raw: &str, exists: bool, is_dir: bool) -> (r: Result<(), ApiError>)
    ensures
        raw@.len() == 0 ==> (r matches Err(e) && e.status == 400 && e.message@
            == "cwd is required"@),
        raw@.len() > 0 ==> match directory_error(raw@, exists, is_dir) {
            Some((status, message)) => r matches Err(e) && e.status == status && e.message@
                == message,
            None => r is Ok,
        },
{
    if raw.is_empty() {
        return Err(ApiError::new(400, "cwd is required"));
    }
    check_directory(raw, exists, is_dir)
}

/// Refuses (403) a working directory outside the allowed roots.
pub fn check_cwd_allowed(cwd: &str, roots: &Vec<String>, process_cwd: &str) -> (r: Result<
    (),
    ApiError,
>)
    ensures
        within_roots(cwd@, strings_view(roots@), process_cwd@) ==> r is Ok,
        !within_roots(cwd@, strings_view(roots@), process_cwd@) ==> (r matches Err(e)
            && e.status == 403 && e.message@ == "access denied: "@ + cwd@),
{
    if is_path_within_roots(cwd, roots, process_cwd) {
        Ok(())
    } else {
        Err(ApiError::new(403, message_with("access denied: ", cwd).as_str()))
    }
}

/// The name of the default working directory of a day (`date` as
/// `YYYY-MM-DD`).
pub fn default_cwd_name(date: &str) -> (r: String)
    ensures
        r@ == "pi-cwd-"@ + date@,
{
    message_with("pi-cwd-", date)
}

/// Index of the first model whose `id` is `model_id`.
pub open spec fn model_index(ms: Seq<Json>, model_id: Seq<char>) -> Option<int>
    decreases ms.len(),
{
    if ms.len() == 0 {
        None
    } else if json_get(ms[0], "id"@) == Some(Json::Str(model_id)) {
        Some(0)
    } else {
        match model_index(ms.drop_first(), model_id) {
            Some(i) => Some(i + 1),
            None => None,
        }
    }
}

/// The context window of the model named `model_id` in a list of models.
pub open spec fn window_of(ms: Seq<Json>, model_id: Seq<char>) -> u64 {
    match model_index(ms, model_id) {
        Some(i) => match json_get(ms[i], "contextWindow"@) {
            Some(Json::Number(NumberView::PosInt(n))) => n,
            _ => 0,
        },
        None => 0,
    }
}

/// The context window `models.json` gives a model:
/// `providers[provider].models[id == model_id].contextWindow` when it is a
/// non-negative integer, else 0.
pub open spec fn context_window_spec(config: Json, provider: Seq<char>, model_id: Seq<char>) -> u64 {
    let models = match json_get(config, "providers"@) {
        Some(ps) => match json_get(ps, provider) {
            Some(p) => json_get(p, "models"@),
            None => None,
        },
        None => None,
    };
    match models {
        Some(Json::Array(ms)) => window_of(ms, model_id),
        _ => 0,
    }
}

/// The context window of a model in the `models.json` configuration.
pub fn context_window(config: &JsonValue, provider: &str, model_id: &str) -> (r: u64)
    ensures
        r == context_window_spec(config@, provider@, model_id@),
{
    let models = match config.get("providers") {
        Some(ps) => match ps.get(provider) {
            Some(p) => p.get("models"),
            None => None,
        },
        None => None,
    };
    let ghost spec_models = match json_get(config@, "providers"@) {
        Some(ps) => match json_get(ps, provider@) {
            Some(p) => json_get(p, "models"@),
            None => None,
        },
        None => None,
    };
    assert(match models {
        Some(m) => spec_models == Some(m@),
        None => spec_models is None,
    });
    match models {
        Some(JsonValue::Array(ms)) => {
            proof {
                lemma_array_view(*ms);
            }
            let ghost mv = items_view(ms@);
            assert(spec_models == Some(Json::Array(mv)));
            assert(context_window_spec(config@, provider@, model_id@) == window_of(mv, model_id@));
            let mut i: usize = 0;
            assert(mv.skip(0) =~= mv);
            while i < ms.len()
                invariant
                    i <= ms.len(),
                    mv == items_view(ms@),
                    context_window_spec(config@, provider@, model_id@) == window_of(mv, model_id@),
                    model_index(mv, model_id@) == match model_index(mv.skip(i as int), model_id@) {
                        Some(k) => Some(k + i),
                        None => None,
                    },
                decreases ms.len() - i,
            {
                assert(mv.skip(i as int)[0] == ms@[i as int]@);
                assert(mv.skip(i as int).drop_first() =~= mv.skip(i + 1));
                let is_model = match ms[i].get("id") {
                    Some(JsonValue::Str(id)) => crate::text::chars_eq(
                        &chars_of(id.as_str()),
                        &chars_of(model_id),
                    ),
                    _ => false,
                };
                if is_model {
                    assert(model_index(mv, model_id@) == Some(i as int));
                    assert(mv[i as int] == ms@[i as int]@);
                    return match ms[i].get("contextWindow") {
                        Some(JsonValue::Number(JsonNumber::PosInt(n))) => *n,
                        _ => 0,
                    };
                }
                i += 1;
            }
            assert(mv.skip(ms.len() as int) =~= Seq::<Json>::empty());
            0
        },
        _ => 0,
    }
}

/// The context window that a context usage is reported against: none when
/// no tokens are counted, the provider or model is unknown, or the model has
/// no window.
pub fn context_usage_window(tokens: u64, provider: &str, model_id: &str, config: &JsonValue) -> (r:
    Option<u64>)
    ensures
        (tokens == 0 || provider@.len() == 0 || model_id@.len() == 0) ==> r is None,
        !(tokens == 0 || provider@.len() == 0 || model_id@.len() == 0) ==> r == (if context_window_spec(
            config@,
            provider@,
            model_id@,
        ) == 0 {
            None
        } else {
            Some(context_window_spec(config@, provider@, model_id@))
        }),
{
    if tokens == 0 || chars_of(provider).len() == 0 || chars_of(model_id).len() == 0 {
        return None;
    }
    let cw = context_window(config, provider, model_id);
    if cw == 0 {
        None
    } else {
        Some(cw)
    }
}


/// The `path` argument, as given; empty when missing or not a string.
pub open spec fn raw_str_arg(args: Json, key: Seq<char>) -> Seq<char> {
    match json_get(args, key) {
        Some(Json::Str(s)) => s,
        _ => seq![],
    }
}

/// The bash output file a request names: `path` is required (400) and must
/// be a bash output file directly in the temporary directory (400).
pub fn bash_output_request(args: &JsonValue, temp_root: &str, cwd: &str) -> (r: Result<String, ApiError>)
    ensures
        raw_str_arg(args@, "path"@).len() == 0 ==> (r matches Err(e) && e.status == 400
            && e.message@ == "path is required"@),
        raw_str_arg(args@, "path"@).len() > 0 ==> match bash_output_path(
            raw_str_arg(args@, "path"@),
            temp_root@,
            cwd@,
        ) {
            Some(p) => r matches Ok(s) && s@ == p,
            None => r matches Err(e) && e.status == 400 && e.message@
                == "invalid bash output path"@,
        },
{
    let path = match args.get("path") {
        Some(JsonValue::Str(p)) => p.as_str(),
        _ => return Err(ApiError::new(400, "path is required")),
    };
    if chars_of(path).len() == 0 {
        return Err(ApiError::new(400, "path is required"));
    }
    match resolve_bash_output_path(path, temp_root, cwd) {
        Some(p) => Ok(p),
        None => Err(ApiError::new(400, "invalid bash output path")),
    }
}

/// The answer to a read of a bash output file: `{output}`, or 413 for a
/// file over the limit.
pub fn bash_output_answer(read: ReadResult) -> (r: Result<JsonValue, ApiError>)
    ensures
        match read {
            ReadResult::Content { content, size: _ } => r matches Ok(v) && v@ == Json::Object(
                seq![("output"@, Json::Str(content@))],
            ),
            ReadResult::TooLarge { size } => r matches Err(e) && e.status == 413 && e.message@
                == "bash output too large ("@ + decimal(size as nat) + " bytes); use download"@,
        },
{
    match read {
        ReadResult::Content { content, size: _ } => {
            let ghost cv = content@;
            let es = vec![(string_of(chars_of("output").as_slice()), JsonValue::Str(content))];
            proof {
                lemma_object_view(es);
            }
            assert(members_view(es@) =~= seq![("output"@, Json::Str(cv))]);
            Ok(JsonValue::Object(es))
        },
        ReadResult::TooLarge { size } => {
            let mut m = chars_of("bash output too large (");
            append_chars(&mut m, &decimal_exec(size));
            append_chars(&mut m, &chars_of(" bytes); use download"));
            Err(ApiError::new(413, string_of(m.as_slice()).as_str()))
        },
    }
}

/// The error of a bash output file that could not be read: 404 when it is
/// missing, else 500 with the reason.
pub fn bash_output_read_error(not_found: bool, reason: &str) -> (e: ApiError)
    ensures
        not_found ==> e.status == 404 && e.message@ == "bash output file not found"@,
        !not_found ==> e.status == 500 && e.message@ == "read bash output: "@ + reason@,
{
    if not_found {
        ApiError::not_found("bash output file not found")
    } else {
        ApiError::internal(message_with("read bash output: ", reason).as_str())
    }
}

} // verus!
