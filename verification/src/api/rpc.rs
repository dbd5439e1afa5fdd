//! The agent RPC: the session command that a request's arguments name, and
//! the bodies of its answers.

use vstd::prelude::*;
use crate::api::commands::{str_arg, str_arg_spec};
use crate::api::types::ApiError;
use crate::fs::allowed_roots::strings_view;
use crate::json::{
    find_member, items_view, json_get, lemma_array_view, lemma_member_index, lemma_object_view,
    members_view, Json, JsonValue,
};
use crate::text::{append_chars, chars_eq, chars_of, string_of};

verus! {

broadcast use vstd::string::group_string_axioms;

/// The `type` of RPC arguments (empty when missing or not a string).
pub open spec fn rpc_type(args: Json) -> Seq<char> {
    match json_get(args, "type"@) {
        Some(Json::Str(t)) => t,
        _ => seq![],
    }
}

/// The strings among the items, in order.
pub open spec fn strings_in(items: Seq<Json>) -> Seq<Seq<char>>
    decreases items.len(),
{
    if items.len() == 0 {
        seq![]
    } else {
        let prev = strings_in(items.drop_last());
        match items.last() {
            Json::Str(s) => prev.push(s),
            _ => prev,
        }
    }
}

/// The tool names of `set_tools`: the strings of the `toolNames` array.
pub open spec fn tool_names(args: Json) -> Seq<Seq<char>> {
    match json_get(args, "toolNames"@) {
        Some(Json::Array(items)) => strings_in(items),
        _ => seq![],
    }
}

fn owned(s: &str) -> (r: String)
    ensures
        r@ == s@,
{
    string_of(chars_of(s).as_slice())
}

fn rpc_type_exec(args: &JsonValue) -> (r: String)
    ensures
        r@ == rpc_type(args@),
{
    match args.get("type") {
        Some(JsonValue::Str(t)) => owned(t.as_str()),
        _ => String::new(),
    }
}

fn message_arg(args: &JsonValue) -> (r: String)
    ensures
        r@ == match json_get(args@, "message"@) {
            Some(Json::Str(m)) => m,
            _ => seq![],
        },
{
    match args.get("message") {
        Some(JsonValue::Str(m)) => owned(m.as_str()),
        _ => String::new(),
    }
}

fn entry_id_arg(args: &JsonValue) -> (r: Option<String>)
    ensures
        match json_get(args@, "entryId"@) {
            Some(Json::Str(e)) => r matches Some(x) && x@ == e,
            _ => r is None,
        },
{
    match args.get("entryId") {
        Some(JsonValue::Str(e)) => Some(owned(e.as_str())),
        _ => None,
    }
}

fn tool_names_exec(args: &JsonValue) -> (r: Vec<String>)
    ensures
        strings_view(r@) == tool_names(args@),
{
    match args.get("toolNames") {
        Some(JsonValue::Array(items)) => {
            proof {
                lemma_array_view(*items);
            }
            let ghost iv = items_view(items@);
            let mut out: Vec<String> = Vec::new();
            assert(iv.take(0) =~= Seq::<Json>::empty());
            for i in 0..items.len()
                invariant
                    iv == items_view(items@),
                    strings_view(out@) == strings_in(iv.take(i as int)),
            {
                let ghost before = strings_view(out@);
                assert(iv.take(i + 1).drop_last() =~= iv.take(i as int));
                assert(iv.take(i + 1).last() == items@[i as int]@);
                match &items[i] {
                    JsonValue::Str(s) => {
                        out.push(owned(s.as_str()));
                        assert(strings_view(out@) =~= before.push(s@));
                    },
                    _ => {},
                }
            }
            assert(iv.take(items.len() as int) =~= iv);
            out
        },
        _ => Vec::new(),
    }
}

/// Moves a member out of an object (`None` when missing or not an object).
fn take_member(v: JsonValue, key: &str) -> (r: Option<JsonValue>)
    ensures
        match json_get(v@, key@) {
            Some(x) => r matches Some(y) && y@ == x,
            None => r is None,
        },
{
    match v {
        JsonValue::Object(es) => {
            proof {
                lemma_object_view(es);
                lemma_member_index(members_view(es@), key@);
            }
            match find_member(&es, key) {
                Some(i) => {
                    let ghost mv = members_view(es@);
                    let mut es = es;
                    let (_, x) = es.remove(i);
                    assert(mv[i as int].1 == x@);
                    Some(x)
                },
                None => None,
            }
        },
        _ => None,
    }
}

/// A session command of the agent RPC, read from its arguments.
#[derive(Debug)]
pub enum RpcRequest {
    /// A prompt, with the raw `images` argument when there is one.
    Prompt { message: String, images: Option<JsonValue> },
    Steer { message: String },
    FollowUp { message: String },
    Abort,
    ClearQueue,
    SetModel { provider: String, model: String },
    SetThinking { level: String },
    SetSessionName { name: String },
    Compact,
    AbortCompaction,
    SetTools { names: Vec<String> },
    NavigateTree { target_id: String },
    Fork { entry_id: Option<String> },
    Reload,
    Bash { command: String },
    AbortBash,
    GetTools,
    GetCommands,
    /// The answer to an extension's UI request, with all its arguments.
    ExtensionUiResponse { id: String, body: JsonValue },
    ExtensionUiInput { id: String, data: String },
    GetStats,
    GetLastText,
}

/// The view of a session command.
pub enum RpcView {
    Prompt { message: Seq<char>, images: Option<Json> },
    Steer { message: Seq<char> },
    FollowUp { message: Seq<char> },
    Abort,
    ClearQueue,
    SetModel { provider: Seq<char>, model: Seq<char> },
    SetThinking { level: Seq<char> },
    SetSessionName { name: Seq<char> },
    Compact,
    AbortCompaction,
    SetTools { names: Seq<Seq<char>> },
    NavigateTree { target_id: Seq<char> },
    Fork { entry_id: Option<Seq<char>> },
    Reload,
    Bash { command: Seq<char> },
    AbortBash,
    GetTools,
    GetCommands,
    ExtensionUiResponse { id: Seq<char>, body: Json },
    ExtensionUiInput { id: Seq<char>, data: Seq<char> },
    GetStats,
    GetLastText,
}

impl View for RpcRequest {
    type V = RpcView;

    open spec fn view(&self) -> RpcView {
        match self {
            RpcRequest::Prompt { message, images } => RpcView::Prompt {
                message: message@,
                images: match images {
                    Some(i) => Some(i@),
                    None => None,
                },
            },
            RpcRequest::Steer { message } => RpcView::Steer { message: message@ },
            RpcRequest::FollowUp { message } => RpcView::FollowUp { message: message@ },
            RpcRequest::Abort => RpcView::Abort,
            RpcRequest::ClearQueue => RpcView::ClearQueue,
            RpcRequest::SetModel { provider, model } => RpcView::SetModel { provider: provider@, model: model@ },
            RpcRequest::SetThinking { level } => RpcView::SetThinking { level: level@ },
            RpcRequest::SetSessionName { name } => RpcView::SetSessionName { name: name@ },
            RpcRequest::Compact => RpcView::Compact,
            RpcRequest::AbortCompaction => RpcView::AbortCompaction,
            RpcRequest::SetTools { names } => RpcView::SetTools { names: strings_view(names@) },
            RpcRequest::NavigateTree { target_id } => RpcView::NavigateTree { target_id: target_id@ },
            RpcRequest::Fork { entry_id } => RpcView::Fork { entry_id: match entry_id { Some(e) => Some(e@), None => None } },
            RpcRequest::Reload => RpcView::Reload,
            RpcRequest::Bash { command } => RpcView::Bash { command: command@ },
            RpcRequest::AbortBash => RpcView::AbortBash,
            RpcRequest::GetTools => RpcView::GetTools,
            RpcRequest::GetCommands => RpcView::GetCommands,
            RpcRequest::ExtensionUiResponse { id, body } => RpcView::ExtensionUiResponse { id: id@, body: body@ },
            RpcRequest::ExtensionUiInput { id, data } => RpcView::ExtensionUiInput { id: id@, data: data@ },
            RpcRequest::GetStats => RpcView::GetStats,
            RpcRequest::GetLastText => RpcView::GetLastText,
        }
    }
}

/// The command of agent RPC arguments: by `type`, with its arguments (a
/// message untrimmed, other text arguments trimmed); a prompt whose
/// `streamingBehavior` is `steer` steers; an unknown type is refused.
pub open spec fn rpc_decoded(args: Json) -> Result<RpcView, Seq<char>> {
    let ty = rpc_type(args);
    let msg = match json_get(args, "message"@) {
        Some(Json::Str(m)) => m,
        _ => seq![],
    };
    if ty == "prompt"@ {
        if json_get(args, "streamingBehavior"@) == Some(Json::Str("steer"@)) {
            Ok(RpcView::Steer { message: msg })
        } else {
            Ok(RpcView::Prompt { message: msg, images: json_get(args, "images"@) })
        }
    } else if ty == "steer"@ {
        Ok(RpcView::Steer { message: msg })
    } else if ty == "follow_up"@ {
        Ok(RpcView::FollowUp { message: msg })
    } else if ty == "abort"@ {
        Ok(RpcView::Abort)
    } else if ty == "clear_queue"@ {
        Ok(RpcView::ClearQueue)
    } else if ty == "set_model"@ {
        Ok(RpcView::SetModel { provider: str_arg_spec(args, "provider"@), model: str_arg_spec(args, "modelId"@) })
    } else if ty == "set_thinking_level"@ {
        Ok(RpcView::SetThinking { level: str_arg_spec(args, "level"@) })
    } else if ty == "set_session_name"@ {
        Ok(RpcView::SetSessionName { name: str_arg_spec(args, "name"@) })
    } else if ty == "compact"@ {
        Ok(RpcView::Compact)
    } else if ty == "abort_compaction"@ {
        Ok(RpcView::AbortCompaction)
    } else if ty == "set_tools"@ {
        Ok(RpcView::SetTools { names: tool_names(args) })
    } else if ty == "navigate_tree"@ {
        Ok(RpcView::NavigateTree { target_id: str_arg_spec(args, "targetId"@) })
    } else if ty == "fork"@ {
        Ok(RpcView::Fork { entry_id: match json_get(args, "entryId"@) { Some(Json::Str(e)) => Some(e), _ => None } })
    } else if ty == "reload"@ {
        Ok(RpcView::Reload)
    } else if ty == "bash"@ {
        Ok(RpcView::Bash { command: str_arg_spec(args, "command"@) })
    } else if ty == "abort_bash"@ {
        Ok(RpcView::AbortBash)
    } else if ty == "get_tools"@ {
        Ok(RpcView::GetTools)
    } else if ty == "get_commands"@ {
        Ok(RpcView::GetCommands)
    } else if ty == "extension_ui_response"@ {
        Ok(RpcView::ExtensionUiResponse { id: str_arg_spec(args, "id"@), body: args })
    } else if ty == "extension_ui_input"@ {
        Ok(RpcView::ExtensionUiInput { id: str_arg_spec(args, "id"@), data: str_arg_spec(args, "data"@) })
    } else if ty == "get_session_stats"@ {
        Ok(RpcView::GetStats)
    } else if ty == "get_last_assistant_text"@ {
        Ok(RpcView::GetLastText)
    } else {
        Err("unknown rpc type: "@ + ty)
    }
}

/// Reads the session command of agent RPC arguments.
pub fn decode_rpc(args: JsonValue) -> (r: Result<RpcRequest, ApiError>)
    ensures
        match rpc_decoded(args@) {
            Ok(v) => r matches Ok(x) && x@ == v,
            Err(m) => r matches Err(e) && e.status == 400 && e.message@ == m,
        },
{
    let ty = chars_of(rpc_type_exec(&args).as_str());
    if chars_eq(&ty, &chars_of("prompt")) {
        let steer = match args.get("streamingBehavior") {
            Some(JsonValue::Str(b)) => chars_eq(&chars_of(b.as_str()), &chars_of("steer")),
            _ => false,
        };
        if steer {
            return Ok(RpcRequest::Steer { message: message_arg(&args) });
        }
        let message = message_arg(&args);
        let images = take_member(args, "images");
        return Ok(RpcRequest::Prompt { message, images });
    }
    if chars_eq(&ty, &chars_of("steer")) {
        return Ok(RpcRequest::Steer { message: message_arg(&args) });
    }
    if chars_eq(&ty, &chars_of("follow_up")) {
        return Ok(RpcRequest::FollowUp { message: message_arg(&args) });
    }
    if chars_eq(&ty, &chars_of("abort")) {
        return Ok(RpcRequest::Abort);
    }
    if chars_eq(&ty, &chars_of("clear_queue")) {
        return Ok(RpcRequest::ClearQueue);
    }
    if chars_eq(&ty, &chars_of("set_model")) {
        return Ok(RpcRequest::SetModel { provider: str_arg(&args, "provider"), model: str_arg(&args, "modelId") });
    }
    if chars_eq(&ty, &chars_of("set_thinking_level")) {
        return Ok(RpcRequest::SetThinking { level: str_arg(&args, "level") });
    }
    if chars_eq(&ty, &chars_of("set_session_name")) {
        return Ok(RpcRequest::SetSessionName { name: str_arg(&args, "name") });
    }
    if chars_eq(&ty, &chars_of("compact")) {
        return Ok(RpcRequest::Compact);
    }
    if chars_eq(&ty, &chars_of("abort_compaction")) {
        return Ok(RpcRequest::AbortCompaction);
    }
    if chars_eq(&ty, &chars_of("set_tools")) {
        return Ok(RpcRequest::SetTools { names: tool_names_exec(&args) });
    }
    if chars_eq(&ty, &chars_of("navigate_tree")) {
        return Ok(RpcRequest::NavigateTree { target_id: str_arg(&args, "targetId") });
    }
    if chars_eq(&ty, &chars_of("fork")) {
        return Ok(RpcRequest::Fork { entry_id: entry_id_arg(&args) });
    }
    if chars_eq(&ty, &chars_of("reload")) {
        return Ok(RpcRequest::Reload);
    }
    if chars_eq(&ty, &chars_of("bash")) {
        return Ok(RpcRequest::Bash { command: str_arg(&args, "command") });
    }
    if chars_eq(&ty, &chars_of("abort_bash")) {
        return Ok(RpcRequest::AbortBash);
    }
    if chars_eq(&ty, &chars_of("get_tools")) {
        return Ok(RpcRequest::GetTools);
    }
    if chars_eq(&ty, &chars_of("get_commands")) {
        return Ok(RpcRequest::GetCommands);
    }
    if chars_eq(&ty, &chars_of("extension_ui_response")) {
        let id = str_arg(&args, "id");
        return Ok(RpcRequest::ExtensionUiResponse { id, body: args });
    }
    if chars_eq(&ty, &chars_of("extension_ui_input")) {
        return Ok(RpcRequest::ExtensionUiInput { id: str_arg(&args, "id"), data: str_arg(&args, "data") });
    }
    if chars_eq(&ty, &chars_of("get_session_stats")) {
        return Ok(RpcRequest::GetStats);
    }
    if chars_eq(&ty, &chars_of("get_last_assistant_text")) {
        return Ok(RpcRequest::GetLastText);
    }
    let mut m = chars_of("unknown rpc type: ");
    append_chars(&mut m, &ty);
    Err(ApiError::new(400, string_of(m.as_slice()).as_str()))
}

/// The body of a command that succeeded: `{"data": data, "success": true}`.
pub fn rpc_success(data: JsonValue) -> (r: JsonValue)
    ensures
        r@ == Json::Object(seq![("data"@, data@), ("success"@, Json::Bool(true))]),
{
    let es = vec![(owned("data"), data), (owned("success"), JsonValue::Bool(true))];
    proof {
        lemma_object_view(es);
    }
    assert(members_view(es@) =~= seq![("data"@, es@[0].1@), ("success"@, Json::Bool(true))]);
    JsonValue::Object(es)
}

/// The body of a refused command: `{"error": error}`, and for a prompt also
/// `"accepted": false` and `"code": "prompt_rejected"`.
pub open spec fn rpc_failure(rpc_type: Seq<char>, error: Seq<char>) -> Json {
    if rpc_type == "prompt"@ {
        Json::Object(
            seq![
                ("accepted"@, Json::Bool(false)),
                ("code"@, Json::Str("prompt_rejected"@)),
                ("error"@, Json::Str(error)),
            ],
        )
    } else {
        Json::Object(seq![("error"@, Json::Str(error))])
    }
}

/// Builds the body of a refused command.
pub fn rpc_failure_body(rpc_type: &str, error: &str) -> (r: JsonValue)
    ensures
        r@ == rpc_failure(rpc_type@, error@),
{
    if chars_eq(&chars_of(rpc_type), &chars_of("prompt")) {
        let es = vec![
            (owned("accepted"), JsonValue::Bool(false)),
            (owned("code"), JsonValue::Str(owned("prompt_rejected"))),
            (owned("error"), JsonValue::Str(owned(error))),
        ];
        proof {
            lemma_object_view(es);
        }
        let ghost expected = seq![
            ("accepted"@, Json::Bool(false)),
            ("code"@, Json::Str("prompt_rejected"@)),
            ("error"@, Json::Str(error@)),
        ];
        assert(members_view(es@) =~= expected);
        assert(rpc_failure(rpc_type@, error@)->Object_0 =~= expected);
        JsonValue::Object(es)
    } else {
        let es = vec![(owned("error"), JsonValue::Str(owned(error)))];
        proof {
            lemma_object_view(es);
        }
        let ghost expected = seq![("error"@, Json::Str(error@))];
        assert(members_view(es@) =~= expected);
        assert(rpc_failure(rpc_type@, error@)->Object_0 =~= expected);
        JsonValue::Object(es)
    }
}

/// The body of the answer to a command for a session that cannot be found.
pub fn session_rejection_body(rpc_type: &str) -> (r: JsonValue)
    ensures
        r@ == rpc_failure(rpc_type@, "Session not found"@),
{
    rpc_failure_body(rpc_type, "Session not found")
}

} // verus!
